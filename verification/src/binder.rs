//! The name to which an arm binds the wrapped value.
//!
//! The arguments of the forwarded call are the parameters of the method, by
//! name. The name that an arm gives to the wrapped value must be none of them,
//! or the argument of that name would be the wrapped value instead of the
//! parameter.

use crate::lines::same_text;
use crate::views::lemma_deep_view_index;
use vstd::prelude::*;
use vstd::string::*;

verus! {

/// A run of `n` underscores.
pub open spec fn underscores(n: nat) -> Seq<char> {
    Seq::new(n, |i: int| '_')
}

/// The length of the longest text, 0 where there is none.
pub open spec fn longest(texts: Seq<Seq<char>>) -> nat
    decreases texts.len(),
{
    if texts.len() == 0 {
        0
    } else if texts.last().len() > longest(texts.drop_last()) {
        texts.last().len()
    } else {
        longest(texts.drop_last())
    }
}

/// The name for the wrapped value in an arm whose call has the given
/// arguments: `inner`, unless that is one of the arguments; then `inner`
/// followed by as many underscores as the longest argument has characters.
pub open spec fn binder_for(arguments: Seq<Seq<char>>) -> Seq<char> {
    if !arguments.contains("inner"@) {
        "inner"@
    } else {
        "inner"@ + underscores(longest(arguments))
    }
}

/// No text is longer than the longest.
pub proof fn lemma_longest(texts: Seq<Seq<char>>, i: int)
    requires
        0 <= i < texts.len(),
    ensures
        texts[i].len() <= longest(texts),
    decreases texts.len(),
{
    if i < texts.len() - 1 {
        lemma_longest(texts.drop_last(), i);
    }
}

/// The name for the wrapped value is none of the arguments.
pub proof fn lemma_binder_is_fresh(arguments: Seq<Seq<char>>)
    ensures
        !arguments.contains(binder_for(arguments)),
{
    if arguments.contains("inner"@) {
        let binder = binder_for(arguments);
        assert forall|i: int| 0 <= i < arguments.len() implies arguments[i] != binder by {
            lemma_longest(arguments, i);
            reveal_strlit("inner");
            assert(binder.len() == 5 + longest(arguments));
        }
    }
}

/// Picks the name for the wrapped value in an arm whose call has the given
/// arguments.
pub fn fresh_binder(arguments: &Vec<String>) -> (binder: String)
    ensures
        binder@ == binder_for(arguments.deep_view()),
{
    let ghost all = arguments.deep_view();
    let mut taken = false;
    let mut length: usize = 0;
    let mut i: usize = 0;
    assert(all.take(0) =~= Seq::empty());
    while i < arguments.len()
        invariant
            i <= arguments.len(),
            all == arguments.deep_view(),
            all.len() == arguments.len(),
            taken == all.take(i as int).contains("inner"@),
            length == longest(all.take(i as int)),
        decreases arguments.len() - i,
    {
        proof {
            lemma_deep_view_index(*arguments, i as int);
            assert(all.take(i + 1).drop_last() =~= all.take(i as int));
            assert(all.take(i + 1).last() == all[i as int]);
        }
        let ghost before = all.take(i as int);
        let ghost after = all.take(i + 1);
        let this = arguments[i].as_str();
        if same_text(this, "inner") {
            taken = true;
            assert(after[i as int] == "inner"@);
        } else {
            proof {
                if before.contains("inner"@) {
                    let k = choose|k: int| 0 <= k < before.len() && before[k] == "inner"@;
                    assert(after[k] == "inner"@);
                }
                if after.contains("inner"@) {
                    let k = choose|k: int| 0 <= k < after.len() && after[k] == "inner"@;
                    assert(before[k] == "inner"@);
                }
            }
        }
        let n = this.unicode_len();
        if n > length {
            length = n;
        }
        i += 1;
    }
    assert(all.take(i as int) =~= all);
    let mut binder = "inner".to_owned();
    if taken {
        let mut k: usize = 0;
        assert(binder@ =~= "inner"@ + underscores(0));
        while k < length
            invariant
                k <= length,
                binder@ == "inner"@ + underscores(k as nat),
            decreases length - k,
        {
            binder.append("_");
            k += 1;
            proof {
                reveal_strlit("_");
                assert(binder@ =~= "inner"@ + underscores(k as nat));
            }
        }
    }
    binder
}

} // verus!
