//! The choice of the transcript to read among the files of the log directory.

use crate::text::{char_lines, matches_at, texts, to_chars};
use vstd::prelude::*;

verus! {

/// The start of the name of every transcript file.
pub open spec fn log_prefix() -> Seq<char> {
    "typescript-"@
}

/// Whether the file name is that of a transcript.
pub open spec fn is_log_name(name: Seq<char>) -> bool {
    log_prefix().is_prefix_of(name)
}

/// Whether `a` stands before `b`, or is `b`, in the order of a dictionary
/// that goes by code points.
pub open spec fn name_le(a: Seq<char>, b: Seq<char>) -> bool
    decreases a.len(),
{
    if a.len() == 0 {
        true
    } else if b.len() == 0 {
        false
    } else if a[0] != b[0] {
        a[0] < b[0]
    } else {
        name_le(a.drop_first(), b.drop_first())
    }
}

fn before_or_same(a: &Vec<char>, b: &Vec<char>) -> (r: bool)
    ensures
        r == name_le(a@, b@),
{
    let mut i: usize = 0;
    assert(a@.skip(0) =~= a@ && b@.skip(0) =~= b@);
    while i < a.len() && i < b.len()
        invariant
            i <= a.len(),
            i <= b.len(),
            name_le(a@, b@) == name_le(a@.skip(i as int), b@.skip(i as int)),
        decreases a.len() - i,
    {
        if a[i] != b[i] {
            return a[i] < b[i];
        }
        proof {
            assert(a@.skip(i as int).drop_first() =~= a@.skip(i + 1));
            assert(b@.skip(i as int).drop_first() =~= b@.skip(i + 1));
        }
        i = i + 1;
    }
    i == a.len()
}

/// Whether `at` is the place of the newest transcript among the names: its
/// name is that of a transcript, and no transcript has a name behind it.
pub open spec fn is_latest(names: Seq<Seq<char>>, at: int) -> bool {
    &&& 0 <= at < names.len()
    &&& is_log_name(names[at])
    &&& forall|k: int|
        0 <= k < names.len() && is_log_name(#[trigger] names[k]) ==> name_le(names[k], names[at])
}

/// Picks the newest transcript among the file names of the log directory:
/// the name that starts with `typescript-` and stands last in the order of
/// the names. `None` where no name starts so.
pub fn latest_log(names: &[String]) -> (r: Option<usize>)
    ensures
        match r {
            Some(at) => is_latest(names.deep_view(), at as int),
            None => forall|k: int| 0 <= k < names@.len() ==> !is_log_name(#[trigger] names@[k]@),
        },
{
    let prefix = to_chars("typescript-");
    let all = char_lines(names);
    let mut best: Option<usize> = None;
    let mut i: usize = 0;
    while i < all.len()
        invariant
            i <= all.len(),
            prefix@ == log_prefix(),
            texts(all@) == names.deep_view(),
            all@.len() == names@.len(),
            match best {
                Some(at) => at < i && is_log_name(all@[at as int]@) && forall|k: int|
                    0 <= k < i && is_log_name(#[trigger] all@[k]@) ==> name_le(
                        all@[k]@,
                        all@[at as int]@,
                    ),
                None => forall|k: int| 0 <= k < i ==> !is_log_name(#[trigger] all@[k]@),
            },
        decreases all.len() - i,
    {
        let is_log = prefix.len() <= all[i].len() && matches_at(&all[i], 0, &prefix);
        if is_log {
            match best {
                None => {
                    proof {
                        lemma_name_le_reflexive(all@[i as int]@);
                    }
                    best = Some(i);
                },
                Some(at) => {
                    if before_or_same(&all[at], &all[i]) {
                        proof {
                            lemma_name_le_reflexive(all@[i as int]@);
                            assert forall|k: int|
                                0 <= k < i + 1 && is_log_name(#[trigger] all@[k]@) implies name_le(
                                all@[k]@,
                                all@[i as int]@,
                            ) by {
                                if k < i {
                                    lemma_name_le_transitive(
                                        all@[k]@,
                                        all@[at as int]@,
                                        all@[i as int]@,
                                    );
                                }
                            }
                        }
                        best = Some(i);
                    } else {
                        proof {
                            lemma_name_le_total(all@[at as int]@, all@[i as int]@);
                        }
                    }
                },
            }
        }
        i = i + 1;
    }
    proof {
        assert forall|k: int| 0 <= k < names@.len() implies all@[k]@ == #[trigger] names@[k]@ by {
            assert(texts(all@)[k] == names.deep_view()[k]);
        }
        match best {
            Some(at) => {
                assert(names.deep_view()[at as int] == all@[at as int]@);
                assert forall|k: int|
                    0 <= k < names.deep_view().len() && is_log_name(
                        #[trigger] names.deep_view()[k],
                    ) implies name_le(names.deep_view()[k], names.deep_view()[at as int]) by {
                    assert(names.deep_view()[k] == all@[k]@);
                }
            },
            None => {},
        }
    }
    best
}

/// Every name stands before or at itself.
pub proof fn lemma_name_le_reflexive(a: Seq<char>)
    ensures
        name_le(a, a),
    decreases a.len(),
{
    if a.len() > 0 {
        lemma_name_le_reflexive(a.drop_first());
    }
}

/// Of two names one stands before or at the other.
pub proof fn lemma_name_le_total(a: Seq<char>, b: Seq<char>)
    ensures
        name_le(a, b) || name_le(b, a),
    decreases a.len(),
{
    if a.len() > 0 && b.len() > 0 && a[0] == b[0] {
        lemma_name_le_total(a.drop_first(), b.drop_first());
    }
}

/// The order of the names is transitive.
pub proof fn lemma_name_le_transitive(a: Seq<char>, b: Seq<char>, c: Seq<char>)
    requires
        name_le(a, b),
        name_le(b, c),
    ensures
        name_le(a, c),
    decreases a.len(),
{
    if a.len() > 0 && b.len() > 0 && c.len() > 0 && a[0] == b[0] && b[0] == c[0] {
        lemma_name_le_transitive(a.drop_first(), b.drop_first(), c.drop_first());
    }
}

} // verus!
