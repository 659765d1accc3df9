//! Resolving a saved device, remembered as an identifier and a label,
//! against the freshly parsed live device list.

use vstd::prelude::*;

use crate::text::contains_sub;
use crate::text::str_contains;
use crate::text::str_eq;

verus! {

/// What `str::to_lowercase` returns for these characters: a function of the
/// characters alone.
pub uninterp spec fn lower_of(s: Seq<char>) -> Seq<char>;

/// Relies on str::to_lowercase: its result depends on the characters alone.
#[verifier::external_body]
fn lowercase(s: &str) -> (r: String)
    ensures
        r@ == lower_of(s@),
{
    s.to_lowercase()
}

/// Some live device carries exactly this identifier.
pub open spec fn id_present(live: Seq<(i32, String)>, id: i32) -> bool {
    exists|i: int| 0 <= i < live.len() && (#[trigger] live[i]).0 == id
}

/// The identifier of the first live device whose label is exactly `label`.
pub open spec fn first_exact_label(live: Seq<(i32, String)>, label: Seq<char>) -> Option<i32>
    decreases live.len(),
{
    if live.len() == 0 {
        None
    } else if live.first().1@ == label {
        Some(live.first().0)
    } else {
        first_exact_label(live.drop_first(), label)
    }
}

/// The identifier of the first live device whose lowercased label contains
/// `needle`, itself already lowercased.
pub open spec fn first_fuzzy_label(live: Seq<(i32, String)>, needle: Seq<char>) -> Option<i32>
    decreases live.len(),
{
    if live.len() == 0 {
        None
    } else if contains_sub(lower_of(live.first().1@), needle) {
        Some(live.first().0)
    } else {
        first_fuzzy_label(live.drop_first(), needle)
    }
}

/// Where a saved device points in the live list: the saved identifier when
/// still present, else the first exact label match, else the first
/// case-insensitive substring match, else nothing.
pub open spec fn spec_resolve(
    saved_id: i32,
    saved_label: Seq<char>,
    live: Seq<(i32, String)>,
) -> Option<i32> {
    if id_present(live, saved_id) {
        Some(saved_id)
    } else if first_exact_label(live, saved_label) is Some {
        first_exact_label(live, saved_label)
    } else {
        first_fuzzy_label(live, lower_of(saved_label))
    }
}

/// Resolve a saved identifier/label pair against the live list: the saved
/// identifier if still present, else the first exact label match, else the
/// first case-insensitive substring match.
pub fn resolve_id(saved_id: i32, saved_label: &str, live: &Vec<(i32, String)>) -> (r: Option<
    i32,
>)
    ensures
        match r {
            Some(id) => spec_resolve(saved_id, saved_label@, live@) == Some(id),
            None => spec_resolve(saved_id, saved_label@, live@) is None,
        },
{
    let n = live.len();
    let mut i: usize = 0;
    while i < n
        invariant
            0 <= i <= n,
            n == live@.len(),
            forall|j: int| 0 <= j < i ==> (#[trigger] live@[j]).0 != saved_id,
        decreases n - i,
    {
        if live[i].0 == saved_id {
            return Some(saved_id);
        }
        i = i + 1;
    }
    assert(!id_present(live@, saved_id));
    let mut i: usize = 0;
    proof {
        assert(live@.skip(0) =~= live@);
    }
    while i < n
        invariant
            0 <= i <= n,
            n == live@.len(),
            !id_present(live@, saved_id),
            first_exact_label(live@, saved_label@) == first_exact_label(
                live@.skip(i as int),
                saved_label@,
            ),
        decreases n - i,
    {
        proof {
            assert(live@.skip(i as int).first() == live@[i as int]);
            assert(live@.skip(i as int).drop_first() =~= live@.skip(i + 1));
        }
        if str_eq(live[i].1.as_str(), saved_label) {
            return Some(live[i].0);
        }
        i = i + 1;
    }
    proof {
        assert(live@.skip(n as int) =~= Seq::<(i32, String)>::empty());
    }
    let needle = lowercase(saved_label);
    let mut i: usize = 0;
    proof {
        assert(live@.skip(0) =~= live@);
    }
    while i < n
        invariant
            0 <= i <= n,
            n == live@.len(),
            !id_present(live@, saved_id),
            first_exact_label(live@, saved_label@) is None,
            needle@ == lower_of(saved_label@),
            first_fuzzy_label(live@, lower_of(saved_label@)) == first_fuzzy_label(
                live@.skip(i as int),
                lower_of(saved_label@),
            ),
        decreases n - i,
    {
        proof {
            assert(live@.skip(i as int).first() == live@[i as int]);
            assert(live@.skip(i as int).drop_first() =~= live@.skip(i + 1));
        }
        let hay = lowercase(live[i].1.as_str());
        if str_contains(hay.as_str(), needle.as_str()) {
            return Some(live[i].0);
        }
        i = i + 1;
    }
    proof {
        assert(live@.skip(n as int) =~= Seq::<(i32, String)>::empty());
    }
    None
}

proof fn lemma_first_exact_at(live: Seq<(i32, String)>, label: Seq<char>, i: int)
    requires
        0 <= i < live.len(),
        live[i].1@ == label,
        forall|j: int| 0 <= j < i ==> (#[trigger] live[j]).1@ != label,
    ensures
        first_exact_label(live, label) == Some(live[i].0),
    decreases live.len(),
{
    if i > 0 {
        assert(live[0].1@ != label);
        assert(live.drop_first()[i - 1] == live[i]);
        assert(forall|j: int|
            0 <= j < i - 1 ==> (#[trigger] live.drop_first()[j]) == live[j + 1]);
        lemma_first_exact_at(live.drop_first(), label, i - 1);
    }
}

proof fn lemma_first_exact_none(live: Seq<(i32, String)>, label: Seq<char>)
    requires
        forall|j: int| 0 <= j < live.len() ==> (#[trigger] live[j]).1@ != label,
    ensures
        first_exact_label(live, label) is None,
    decreases live.len(),
{
    if live.len() > 0 {
        assert(forall|j: int|
            0 <= j < live.len() - 1 ==> (#[trigger] live.drop_first()[j]) == live[j + 1]);
        lemma_first_exact_none(live.drop_first(), label);
    }
}

proof fn lemma_first_fuzzy_at(live: Seq<(i32, String)>, needle: Seq<char>, i: int)
    requires
        0 <= i < live.len(),
        contains_sub(lower_of(live[i].1@), needle),
        forall|j: int| 0 <= j < i ==> !contains_sub(lower_of((#[trigger] live[j]).1@), needle),
    ensures
        first_fuzzy_label(live, needle) == Some(live[i].0),
    decreases live.len(),
{
    if i > 0 {
        assert(live.drop_first()[i - 1] == live[i]);
        assert(forall|j: int|
            0 <= j < i - 1 ==> (#[trigger] live.drop_first()[j]) == live[j + 1]);
        lemma_first_fuzzy_at(live.drop_first(), needle, i - 1);
    }
}

proof fn lemma_first_fuzzy_none(live: Seq<(i32, String)>, needle: Seq<char>)
    requires
        forall|j: int|
            0 <= j < live.len() ==> !contains_sub(lower_of((#[trigger] live[j]).1@), needle),
    ensures
        first_fuzzy_label(live, needle) is None,
    decreases live.len(),
{
    if live.len() > 0 {
        assert(forall|j: int|
            0 <= j < live.len() - 1 ==> (#[trigger] live.drop_first()[j]) == live[j + 1]);
        lemma_first_fuzzy_none(live.drop_first(), needle);
    }
}

/// A still-present saved identifier takes precedence: it is returned even
/// when the saved label matches nothing.
pub proof fn lemma_resolve_prefers_identifier(
    saved_id: i32,
    saved_label: Seq<char>,
    live: Seq<(i32, String)>,
)
    requires
        id_present(live, saved_id),
    ensures
        spec_resolve(saved_id, saved_label, live) == Some(saved_id),
{
}

/// When the saved identifier is gone but a label matches exactly, the first
/// exactly matching device's identifier is returned.
pub proof fn lemma_resolve_exact_label(
    saved_id: i32,
    saved_label: Seq<char>,
    live: Seq<(i32, String)>,
    i: int,
)
    requires
        !id_present(live, saved_id),
        0 <= i < live.len(),
        live[i].1@ == saved_label,
        forall|j: int| 0 <= j < i ==> (#[trigger] live[j]).1@ != saved_label,
    ensures
        spec_resolve(saved_id, saved_label, live) == Some(live[i].0),
{
    lemma_first_exact_at(live, saved_label, i);
}

/// When the saved identifier is gone and no label matches exactly, the first
/// device whose lowercased label contains the lowercased saved label is
/// returned.
pub proof fn lemma_resolve_fuzzy_label(
    saved_id: i32,
    saved_label: Seq<char>,
    live: Seq<(i32, String)>,
    i: int,
)
    requires
        !id_present(live, saved_id),
        forall|j: int| 0 <= j < live.len() ==> (#[trigger] live[j]).1@ != saved_label,
        0 <= i < live.len(),
        contains_sub(lower_of(live[i].1@), lower_of(saved_label)),
        forall|j: int|
            0 <= j < i ==> !contains_sub(lower_of((#[trigger] live[j]).1@), lower_of(saved_label)),
    ensures
        spec_resolve(saved_id, saved_label, live) == Some(live[i].0),
{
    lemma_first_exact_none(live, saved_label);
    lemma_first_fuzzy_at(live, lower_of(saved_label), i);
}

/// When no stage matches, resolution reports nothing; a stale identifier is
/// never returned.
pub proof fn lemma_resolve_not_found(
    saved_id: i32,
    saved_label: Seq<char>,
    live: Seq<(i32, String)>,
)
    requires
        !id_present(live, saved_id),
        forall|j: int| 0 <= j < live.len() ==> (#[trigger] live[j]).1@ != saved_label,
        forall|j: int|
            0 <= j < live.len() ==> !contains_sub(
                lower_of((#[trigger] live[j]).1@),
                lower_of(saved_label),
            ),
    ensures
        spec_resolve(saved_id, saved_label, live) is None,
{
    lemma_first_exact_none(live, saved_label);
    lemma_first_fuzzy_none(live, lower_of(saved_label));
}

} // verus!
