//! Live pages of a browser, and the choice among them.

use crate::text;
use vstd::prelude::*;

verus! {

/// A live page of a browser.
#[derive(Debug)]
pub struct LiveTarget {
    /// What the browser calls the page.
    pub id: String,
    /// The address that it shows.
    pub url: String,
    /// Its title.
    pub title: String,
}

impl Clone for LiveTarget {
    fn clone(&self) -> (r: Self)
        ensures
            r == *self,
    {
        LiveTarget { id: self.id.clone(), url: self.url.clone(), title: self.title.clone() }
    }
}

/// Whether a page has the given identifier.
pub open spec fn has_id(target: LiveTarget, id: Seq<char>) -> bool {
    target.id@ == id
}

/// The first page with the given identifier; the number of pages where none has it.
pub open spec fn first_with_id(targets: Seq<LiveTarget>, id: Seq<char>) -> nat
    decreases targets.len(),
{
    if targets.len() == 0 || has_id(targets[0], id) {
        0
    } else {
        1 + first_with_id(targets.drop_first(), id)
    }
}

/// The page that a request is made in the name of: the wanted one if it is live, else the first.
pub open spec fn context_of(targets: Seq<LiveTarget>, wanted: Option<Seq<char>>) -> Option<
    LiveTarget,
> {
    if wanted is Some && first_with_id(targets, wanted->0) < targets.len() {
        Some(targets[first_with_id(targets, wanted->0) as int])
    } else if targets.len() > 0 {
        Some(targets[0])
    } else {
        None
    }
}

proof fn lemma_first_with_id(targets: Seq<LiveTarget>, id: Seq<char>, n: int)
    requires
        0 <= n <= targets.len(),
        forall|i: int| 0 <= i < n ==> !has_id(#[trigger] targets[i], id),
        n < targets.len() ==> has_id(targets[n], id),
    ensures
        first_with_id(targets, id) == n,
    decreases targets.len(),
{
    if n > 0 {
        assert(!has_id(targets[0], id));
        let rest = targets.drop_first();
        assert forall|i: int| 0 <= i < n - 1 implies !has_id(#[trigger] rest[i], id) by {
            assert(rest[i] == targets[i + 1]);
        }
        lemma_first_with_id(rest, id, n - 1);
    }
}

/// The page that a request is made in the name of: the wanted one if it is live, else the first
/// one, if there is any.
pub fn context_target<'a>(targets: &'a [LiveTarget], wanted: Option<&str>) -> (r: Option<
    &'a LiveTarget,
>)
    ensures
        match context_of(targets@, wanted.deep_view()) {
            Some(target) => r matches Some(t) && *t == target,
            None => r is None,
        },
{
    if let Some(id) = wanted {
        let id_chars = text::chars_of(id);
        for i in 0..targets.len()
            invariant
                id_chars@ == id@,
                wanted.deep_view() == Some(id@),
                forall|j: int| 0 <= j < i ==> !has_id(#[trigger] targets@[j], id@),
        {
            let candidate = text::chars_of(targets[i].id.as_str());
            if text::same(candidate.as_slice(), id_chars.as_slice()) {
                proof {
                    lemma_first_with_id(targets@, id@, i as int);
                }
                return Some(&targets[i]);
            }
        }
        proof {
            lemma_first_with_id(targets@, id@, targets@.len() as int);
        }
    }
    if targets.len() > 0 {
        Some(&targets[0])
    } else {
        None
    }
}

/// A request is made in the name of a page whenever one is live: of the wanted page if it is
/// among the live ones, and else of some live page.
pub proof fn context_is_live(targets: Seq<LiveTarget>, wanted: Option<Seq<char>>)
    ensures
        context_of(targets, wanted) is None <==> targets.len() == 0,
        context_of(targets, wanted) matches Some(target) ==> targets.contains(target),
        wanted matches Some(id) ==> (exists|i: int|
            0 <= i < targets.len() && has_id(#[trigger] targets[i], id)) ==> has_id(
            context_of(targets, wanted)->0,
            id,
        ),
{
    if let Some(id) = wanted {
        lemma_first_with_id_bound(targets, id);
    }
}

proof fn lemma_first_with_id_bound(targets: Seq<LiveTarget>, id: Seq<char>)
    ensures
        first_with_id(targets, id) <= targets.len(),
        first_with_id(targets, id) < targets.len() ==> has_id(
            targets[first_with_id(targets, id) as int],
            id,
        ),
        (exists|i: int| 0 <= i < targets.len() && has_id(#[trigger] targets[i], id))
            ==> first_with_id(targets, id) < targets.len(),
    decreases targets.len(),
{
    if targets.len() > 0 && !has_id(targets[0], id) {
        let rest = targets.drop_first();
        lemma_first_with_id_bound(rest, id);
        if exists|i: int| 0 <= i < targets.len() && has_id(#[trigger] targets[i], id) {
            let i = choose|i: int| 0 <= i < targets.len() && has_id(#[trigger] targets[i], id);
            assert(has_id(rest[i - 1], id));
        }
    }
}

/// Where the wanted page is live, the first page with its identifier is taken; where it is not, or
/// none is wanted, the first page of all.
pub proof fn the_wanted_page_comes_first(
    targets: Seq<LiveTarget>,
    wanted: Option<Seq<char>>,
    n: int,
)
    requires
        0 <= n < targets.len(),
    ensures
        wanted is None ==> context_of(targets, wanted) == Some(targets[0]),
        wanted matches Some(id) ==> targets[n].id@ == id && (forall|i: int|
            0 <= i < n ==> (#[trigger] targets[i]).id@ != id) ==> context_of(targets, wanted)
            == Some(targets[n]),
        wanted matches Some(id) ==> (forall|i: int|
            0 <= i < targets.len() ==> (#[trigger] targets[i]).id@ != id) ==> context_of(
            targets,
            wanted,
        ) == Some(targets[0]),
        context_of(Seq::empty(), wanted) is None,
{
    if let Some(id) = wanted {
        if targets[n].id@ == id && (forall|i: int|
            0 <= i < n ==> (#[trigger] targets[i]).id@ != id) {
            lemma_first_with_id(targets, id, n);
        }
        if forall|i: int| 0 <= i < targets.len() ==> (#[trigger] targets[i]).id@ != id {
            lemma_first_with_id(targets, id, targets.len() as int);
        }
    }
}

} // verus!
