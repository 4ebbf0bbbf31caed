//! First match wins: the outcomes of an ordered list of rules, each either
//! a text or nothing, and the choice of the first text among them.

use crate::pattern::text_of;
use vstd::prelude::*;

verus! {

/// The first outcome that is present, in the order of the list.
pub open spec fn first_present(outcomes: Seq<Option<Seq<char>>>) -> Option<Seq<char>>
    decreases outcomes.len(),
{
    if outcomes.len() == 0 {
        None
    } else if outcomes[0].is_some() {
        outcomes[0]
    } else {
        first_present(outcomes.drop_first())
    }
}

/// The characters of a list of optional texts.
pub open spec fn texts_of(outcomes: Seq<Option<String>>) -> Seq<Option<Seq<char>>> {
    Seq::new(outcomes.len(), |k: int| text_of(outcomes[k]))
}

/// `first` where it is present, else `second`.
pub open spec fn or_else(first: Option<Seq<char>>, second: Option<Seq<char>>) -> Option<
    Seq<char>,
> {
    if first.is_some() {
        first
    } else {
        second
    }
}

/// Law: an outcome that is present decides as soon as none before it is.
pub proof fn lemma_first_present_decides(outcomes: Seq<Option<Seq<char>>>, k: int)
    requires
        0 <= k < outcomes.len(),
        outcomes[k].is_some(),
        forall|earlier: int| 0 <= earlier < k ==> (#[trigger] outcomes[earlier]).is_none(),
    ensures
        first_present(outcomes) == outcomes[k],
    decreases k,
{
    if k > 0 {
        let rest = outcomes.drop_first();
        assert(outcomes[0].is_none());
        assert(rest[k - 1] == outcomes[k]);
        assert forall|earlier: int| 0 <= earlier < k - 1 implies (#[trigger] rest[earlier]).is_none() by {
            assert(rest[earlier] == outcomes[earlier + 1]);
        }
        lemma_first_present_decides(rest, k - 1);
    }
}

/// Law: nothing is chosen exactly when no outcome is present.
pub proof fn lemma_first_present_none(outcomes: Seq<Option<Seq<char>>>)
    ensures
        first_present(outcomes).is_none() <==> forall|k: int|
            0 <= k < outcomes.len() ==> (#[trigger] outcomes[k]).is_none(),
    decreases outcomes.len(),
{
    if outcomes.len() > 0 {
        let rest = outcomes.drop_first();
        lemma_first_present_none(rest);
        if outcomes[0].is_none() {
            if first_present(rest).is_none() {
                assert forall|k: int| 0 <= k < outcomes.len() implies (
                #[trigger] outcomes[k]).is_none() by {
                    if k > 0 {
                        assert(rest[k - 1] == outcomes[k]);
                    }
                }
            } else {
                let k = choose|k: int| 0 <= k < rest.len() && !(#[trigger] rest[k]).is_none();
                assert(rest[k] == outcomes[k + 1]);
            }
        }
    }
}

/// An outcome added at the end decides only where none before it is present.
pub proof fn lemma_first_present_push(outcomes: Seq<Option<Seq<char>>>, last: Option<Seq<char>>)
    ensures
        first_present(outcomes.push(last)) == or_else(first_present(outcomes), last),
    decreases outcomes.len(),
{
    let longer = outcomes.push(last);
    if outcomes.len() == 0 {
        assert(longer.drop_first() =~= outcomes);
    } else {
        assert(longer[0] == outcomes[0]);
        assert(longer.drop_first() =~= outcomes.drop_first().push(last));
        lemma_first_present_push(outcomes.drop_first(), last);
    }
}

/// Chooses the first outcome that is present.
pub fn first_outcome(outcomes: Vec<Option<String>>) -> (first: Option<String>)
    ensures
        text_of(first) == first_present(texts_of(outcomes@)),
{
    let ghost all = texts_of(outcomes@);
    let mut left = outcomes;
    let mut found: Option<String> = None;
    while left.len() > 0
        invariant
            first_present(all) == or_else(first_present(texts_of(left@)), text_of(found)),
        decreases left.len(),
    {
        let ghost before = left@;
        let last = left.pop();
        proof {
            assert(texts_of(before) =~= texts_of(left@).push(text_of(before.last())));
            lemma_first_present_push(texts_of(left@), text_of(before.last()));
        }
        match last {
            Some(Some(text)) => {
                found = Some(text);
            },
            _ => {},
        }
    }
    found
}

} // verus!
