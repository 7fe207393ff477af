//! The CORS origin allow-list: parsing the comma-separated configuration
//! value and deciding whether a request origin is honored.

use vstd::prelude::*;
use vstd::string::StrSliceExecFns;
use crate::text::{is_prefix, spec_trim, starts_with, str_eq, trim};

verus! {

/// Index of the first comma in `s`, or `s.len()` when there is none.
pub open spec fn first_comma(s: Seq<char>) -> nat
    decreases s.len(),
{
    if s.len() == 0 {
        0
    } else if s[0] == ',' {
        0
    } else {
        1 + first_comma(s.drop_first())
    }
}

/// The comma-separated pieces of `s`, in order, separators dropped.
pub open spec fn split_commas(s: Seq<char>) -> Seq<Seq<char>>
    decreases s.len(),
{
    let i = first_comma(s) as int;
    if i >= s.len() {
        seq![s]
    } else {
        seq![s.subrange(0, i)] + split_commas(s.subrange(i + 1, s.len() as int))
    }
}

/// The distinct trimmed, non-empty pieces.
pub open spec fn origin_views(pieces: Seq<Seq<char>>) -> Set<Seq<char>>
    decreases pieces.len(),
{
    if pieces.len() == 0 {
        Set::empty()
    } else {
        let t = spec_trim(pieces[0]);
        let rest = origin_views(pieces.drop_first());
        if t.len() > 0 {
            rest.insert(t)
        } else {
            rest
        }
    }
}

/// The origins denoted by a comma-separated allow-list.
pub open spec fn origins_of(s: Seq<char>) -> Set<Seq<char>> {
    origin_views(split_commas(s))
}

/// The origins denoted by the optional configuration value: none when it is
/// absent.
pub open spec fn allowed_origins(value: Option<Seq<char>>) -> Set<Seq<char>> {
    match value {
        Some(s) => origins_of(s),
        None => Set::empty(),
    }
}

/// The set of string views a list holds.
pub open spec fn view_set(v: Seq<String>) -> Set<Seq<char>> {
    Set::new(|o: Seq<char>| exists|i: int| 0 <= i < v.len() && (#[trigger] v[i])@ == o)
}

/// No two list elements read the same.
pub open spec fn unique_views(v: Seq<String>) -> bool {
    forall|i: int, j: int| 0 <= i < j < v.len() ==> (#[trigger] v[i])@ != (#[trigger] v[j])@
}

/// Decides membership of `t` in the list, by string value.
fn contains_str(v: &Vec<String>, t: &str) -> (r: bool)
    ensures
        r == view_set(v@).contains(t@),
{
    let n = v.len();
    let mut i: usize = 0;
    while i < n
        invariant
            0 <= i <= n,
            n == v@.len(),
            forall|j: int| 0 <= j < i ==> (#[trigger] v@[j])@ != t@,
        decreases n - i,
    {
        if str_eq(v[i].as_str(), t) {
            proof {
                assert((v@[i as int])@ == t@);
            }
            return true;
        }
        i += 1;
    }
    proof {
        if view_set(v@).contains(t@) {
            let j = choose|j: int| 0 <= j < v@.len() && (#[trigger] v@[j])@ == t@;
            assert(false);
        }
    }
    false
}

/// Trims `piece` and appends it to `out` unless it is empty or already there.
fn push_origin(out: &mut Vec<String>, piece: &str)
    requires
        unique_views(old(out)@),
    ensures
        unique_views(final(out)@),
        view_set(final(out)@) == if spec_trim(piece@).len() > 0 {
            view_set(old(out)@).insert(spec_trim(piece@))
        } else {
            view_set(old(out)@)
        },
{
    let t = trim(piece);
    if t.unicode_len() == 0 {
        return;
    }
    if contains_str(out, t) {
        proof {
            assert(view_set(out@).insert(t@) =~= view_set(out@));
        }
        return;
    }
    let ghost v0 = out@;
    out.push(t.to_owned());
    proof {
        assert forall|o: Seq<char>|
            view_set(out@).contains(o) == view_set(v0).insert(t@).contains(o) by {
            if o == t@ {
                assert((out@[v0.len() as int])@ == t@);
            } else {
                if view_set(out@).contains(o) {
                    let j = choose|j: int| 0 <= j < out@.len() && (#[trigger] out@[j])@ == o;
                    assert(out@[j] == v0[j]);
                }
                if view_set(v0).contains(o) {
                    let j = choose|j: int| 0 <= j < v0.len() && (#[trigger] v0[j])@ == o;
                    assert(out@[j] == v0[j]);
                }
            }
        }
        assert(view_set(out@) =~= view_set(v0).insert(t@));
        assert forall|i: int, j: int| 0 <= i < j < out@.len() implies (#[trigger] out@[i])@
            != (#[trigger] out@[j])@ by {
            if j < v0.len() {
                assert(out@[i] == v0[i] && out@[j] == v0[j]);
            } else {
                assert(out@[i] == v0[i]);
                assert((out@[j])@ == t@);
                if view_set(v0).contains(t@) {
                    assert(false);
                }
                assert((v0[i])@ != t@);
            }
        }
    }
}

proof fn lemma_first_comma_at(s: Seq<char>, i: int)
    requires
        0 <= i <= s.len(),
        forall|j: int| 0 <= j < i ==> s[j] != ',',
        i < s.len() ==> s[i] == ',',
    ensures
        first_comma(s) == i,
    decreases i,
{
    if i == 0 {
    } else {
        assert(s[0] != ',');
        let t = s.drop_first();
        assert(forall|j: int| 0 <= j < i - 1 ==> t[j] == s[j + 1] && s[j + 1] != ',');
        lemma_first_comma_at(t, i - 1);
    }
}

/// Adds every origin of the comma-separated list `s` to `out`.
fn collect_origins(s: &str, out: &mut Vec<String>)
    requires
        unique_views(old(out)@),
    ensures
        unique_views(final(out)@),
        view_set(final(out)@) == view_set(old(out)@).union(origins_of(s@)),
    decreases s@.len(),
{
    let n = s.unicode_len();
    let mut i: usize = 0;
    while i < n && s.get_char(i) != ','
        invariant
            0 <= i <= n,
            n == s@.len(),
            forall|j: int| 0 <= j < i ==> s@[j] != ',',
        decreases n - i,
    {
        i += 1;
    }
    proof {
        lemma_first_comma_at(s@, i as int);
    }
    if i == n {
        push_origin(out, s);
        proof {
            assert(split_commas(s@) == seq![s@]);
            assert(seq![s@].drop_first() =~= Seq::<Seq<char>>::empty());
            assert(origin_views(seq![s@].drop_first()) == Set::<Seq<char>>::empty());
            assert(view_set(out@) =~= view_set(old(out)@).union(origins_of(s@)));
        }
    } else {
        let piece = s.substring_char(0, i);
        push_origin(out, piece);
        let rest = s.substring_char(i + 1, n);
        let ghost v1 = out@;
        collect_origins(rest, out);
        proof {
            let pieces = split_commas(s@);
            assert(pieces == seq![piece@] + split_commas(rest@));
            assert(pieces[0] == piece@);
            assert(pieces.drop_first() =~= split_commas(rest@));
            assert(origins_of(s@) == if spec_trim(piece@).len() > 0 {
                origin_views(split_commas(rest@)).insert(spec_trim(piece@))
            } else {
                origin_views(split_commas(rest@))
            });
            assert(view_set(out@) =~= view_set(old(out)@).union(origins_of(s@)));
        }
    }
}

/// Splits the configured comma-separated origin list into its distinct
/// trimmed, non-empty entries; an absent value allows no origin.
pub fn extract_allowed_origins(value: &Option<String>) -> (out: Vec<String>)
    ensures
        unique_views(out@),
        view_set(out@) == allowed_origins(
            match value {
                Some(s) => Some(s@),
                None => None::<Seq<char>>,
            },
        ),
{
    let mut out: Vec<String> = Vec::new();
    match value {
        None => {
            proof {
                assert(view_set(out@) =~= Set::<Seq<char>>::empty());
            }
        },
        Some(s) => {
            collect_origins(s.as_str(), &mut out);
            proof {
                assert(view_set(Seq::<String>::empty()) =~= Set::<Seq<char>>::empty());
                assert(view_set(out@) =~= origins_of(s@));
            }
        },
    }
    out
}

/// An origin is honored exactly when it uses the http or https scheme and
/// stands in the allow-list.
pub open spec fn spec_origin_allowed(origin: Seq<char>, allowed: Set<Seq<char>>) -> bool {
    (is_prefix("http://"@, origin) || is_prefix("https://"@, origin)) && allowed.contains(origin)
}

/// Decides `spec_origin_allowed` for a request origin against the extracted
/// allow-list.
pub fn origin_allowed(origin: &str, allowed: &Vec<String>) -> (r: bool)
    ensures
        r == spec_origin_allowed(origin@, view_set(allowed@)),
{
    (starts_with(origin, "http://") || starts_with(origin, "https://")) && contains_str(
        allowed,
        origin,
    )
}

} // verus!