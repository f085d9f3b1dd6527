//! Locating placeholder spans in a template.
//!
//! A placeholder span is `{body}` where the body holds no brace.  Scanning a
//! template from the left either replaces each span with the two-character
//! marker `{}` (the generalized form) or collects the span bodies (the
//! placeholder names).  Characters outside any span — including stray
//! braces — are kept as they are; later validation rejects literal parts
//! that still hold a brace.

use vstd::prelude::*;
use vstd::string::*;

use crate::error::ParseError;
use crate::ident::is_identifier;
use crate::ident::spec_is_identifier;

verus! {

/// Index of the first `}` in `u`, unless a `{` or the end of the string
/// comes first.  This is the closing brace of a placeholder whose body
/// starts at `u[0]`.
pub open spec fn close_idx(u: Seq<char>) -> Option<int>
    decreases u.len(),
{
    if u.len() == 0 {
        None
    } else if u[0] == '}' {
        Some(0int)
    } else if u[0] == '{' {
        None
    } else {
        match close_idx(u.drop_first()) {
            None => None,
            Some(k) => Some(k + 1),
        }
    }
}

/// When a placeholder span opens the string `s`, the index of its closing
/// brace within `s.drop_first()`; `None` when `s` does not open with a span.
pub open spec fn span_close(s: Seq<char>) -> Option<int> {
    if s.len() > 0 && s[0] == '{' {
        match close_idx(s.drop_first()) {
            Some(k) => if 0 <= k && k + 2 <= s.len() {
                Some(k)
            } else {
                None
            },
            None => None,
        }
    } else {
        None
    }
}

/// The template with every placeholder span replaced by the marker `{}`;
/// every other character is kept in place.
pub open spec fn spec_generalize(s: Seq<char>) -> Seq<char>
    decreases s.len(),
{
    if s.len() == 0 {
        Seq::empty()
    } else {
        match span_close(s) {
            Some(k) => seq!['{', '}'] + spec_generalize(s.skip(k + 2)),
            None => seq![s[0]] + spec_generalize(s.drop_first()),
        }
    }
}

/// The placeholder bodies of the template, in order of appearance.
pub open spec fn spec_names(s: Seq<char>) -> Seq<Seq<char>>
    decreases s.len(),
{
    if s.len() == 0 {
        Seq::empty()
    } else {
        match span_close(s) {
            Some(k) => seq![s.subrange(1, k + 1)] + spec_names(s.skip(k + 2)),
            None => spec_names(s.drop_first()),
        }
    }
}

/// No two entries are equal.
pub open spec fn distinct(names: Seq<Seq<char>>) -> bool {
    forall|i: int, j: int| 0 <= i < j < names.len() ==> names[i] != names[j]
}

/// Every placeholder name is a legal identifier and no name repeats.
pub open spec fn names_ok(names: Seq<Seq<char>>) -> bool {
    &&& forall|i: int| 0 <= i < names.len() ==> spec_is_identifier(#[trigger] names[i])
    &&& distinct(names)
}

/// Scanning one character that opens no placeholder span copies it into the
/// generalized form and contributes no name.
pub proof fn lemma_scan_copy(s: Seq<char>, pos: int)
    requires
        0 <= pos < s.len(),
        s[pos] != '{' || close_idx(s.skip(pos + 1)) is None,
    ensures
        span_close(s.skip(pos)) is None,
        spec_generalize(s.skip(pos)) == seq![s[pos]] + spec_generalize(s.skip(pos + 1)),
        spec_names(s.skip(pos)) == spec_names(s.skip(pos + 1)),
{
    assert(s.skip(pos).drop_first() =~= s.skip(pos + 1));
    assert(s.skip(pos)[0] == s[pos]);
}

/// Scanning a placeholder span that runs from `pos` to its closing brace at
/// `j` emits the marker and contributes the span's body as a name.
pub proof fn lemma_scan_span(s: Seq<char>, pos: int, j: int)
    requires
        0 <= pos < j < s.len(),
        s[pos] == '{',
        close_idx(s.skip(pos + 1)) == Some(j - pos - 1),
    ensures
        span_close(s.skip(pos)) == Some(j - pos - 1),
        spec_generalize(s.skip(pos)) == seq!['{', '}'] + spec_generalize(s.skip(j + 1)),
        spec_names(s.skip(pos)) == seq![s.subrange(pos + 1, j)] + spec_names(s.skip(j + 1)),
{
    assert(s.skip(pos).drop_first() =~= s.skip(pos + 1));
    assert(s.skip(pos)[0] == s[pos]);
    assert(s.skip(pos).skip(j - pos + 1) =~= s.skip(j + 1));
    assert(s.skip(pos).subrange(1, j - pos) =~= s.subrange(pos + 1, j));
}

/// Find the closing brace of a placeholder body that starts at `start`: the
/// first `}` at or after `start`, unless a `{` or the end comes first.
fn find_close(s: &str, start: usize) -> (r: Option<usize>)
    requires
        start <= s@.len(),
    ensures
        match r {
            Some(j) => start <= j < s@.len() && close_idx(s@.skip(start as int)) == Some(
                j - start,
            ),
            None => close_idx(s@.skip(start as int)) is None,
        },
{
    let n: usize = s.unicode_len();
    let mut j: usize = start;
    while j < n
        invariant
            start <= j <= n,
            n == s@.len(),
            match close_idx(s@.skip(j as int)) {
                Some(k) => close_idx(s@.skip(start as int)) == Some(k + j - start),
                None => close_idx(s@.skip(start as int)) is None,
            },
        decreases n - j,
    {
        let c: char = s.get_char(j);
        proof {
            assert(s@.skip(j as int)[0] == s@[j as int]);
            assert(s@.skip(j as int).drop_first() =~= s@.skip(j as int + 1));
        }
        if c == '}' {
            return Some(j);
        }
        if c == '{' {
            return None;
        }
        j += 1;
    }
    proof {
        assert(s@.skip(n as int) =~= Seq::<char>::empty());
    }
    None
}

/// Replace every placeholder span of `s` with the marker `{}`.
pub fn generalize(s: &str) -> (g: String)
    ensures
        g@ == spec_generalize(s@),
{
    let n: usize = s.unicode_len();
    let mut g: String = String::new();
    let mut pos: usize = 0;
    proof {
        assert(s@.skip(0) =~= s@);
        assert(g@ + spec_generalize(s@) =~= spec_generalize(s@));
    }
    while pos < n
        invariant
            pos <= n,
            n == s@.len(),
            g@ + spec_generalize(s@.skip(pos as int)) == spec_generalize(s@),
        decreases n - pos,
    {
        let c: char = s.get_char(pos);
        let ghost g_old: Seq<char> = g@;
        if c == '{' {
            match find_close(s, pos + 1) {
                Some(j) => {
                    proof {
                        lemma_scan_span(s@, pos as int, j as int);
                        reveal_strlit("{}");
                        assert(("{}")@ =~= seq!['{', '}']);
                    }
                    g.append("{}");
                    proof {
                        assert(g@ + spec_generalize(s@.skip(j + 1)) =~= g_old + spec_generalize(
                            s@.skip(pos as int),
                        ));
                    }
                    pos = j + 1;
                },
                None => {
                    proof {
                        lemma_scan_copy(s@, pos as int);
                    }
                    let piece: &str = s.substring_char(pos, pos + 1);
                    proof {
                        assert(piece@ =~= seq![s@[pos as int]]);
                    }
                    g.append(piece);
                    proof {
                        assert(g@ + spec_generalize(s@.skip(pos as int + 1)) =~= g_old
                            + spec_generalize(s@.skip(pos as int)));
                    }
                    pos += 1;
                },
            }
        } else {
            proof {
                lemma_scan_copy(s@, pos as int);
            }
            let piece: &str = s.substring_char(pos, pos + 1);
            proof {
                assert(piece@ =~= seq![s@[pos as int]]);
            }
            g.append(piece);
            proof {
                assert(g@ + spec_generalize(s@.skip(pos as int + 1)) =~= g_old + spec_generalize(
                    s@.skip(pos as int),
                ));
            }
            pos += 1;
        }
    }
    proof {
        assert(s@.skip(n as int) =~= Seq::<char>::empty());
        assert(g@ + spec_generalize(s@.skip(n as int)) =~= g@);
    }
    g
}

/// Collect the placeholder names of `s`, in order, and validate them: each
/// must be a legal identifier, and no name may appear twice.
pub fn get_names(s: &str) -> (r: Result<Vec<String>, ParseError>)
    ensures
        r is Ok <==> names_ok(spec_names(s@)),
        r matches Ok(names) ==> names.deep_view() == spec_names(s@),
{
    let n: usize = s.unicode_len();
    let mut names: Vec<String> = Vec::new();
    let mut pos: usize = 0;
    proof {
        assert(s@.skip(0) =~= s@);
        assert(names.deep_view() =~= Seq::<Seq<char>>::empty());
        assert(names.deep_view() + spec_names(s@) =~= spec_names(s@));
    }
    while pos < n
        invariant
            pos <= n,
            n == s@.len(),
            names.deep_view() + spec_names(s@.skip(pos as int)) == spec_names(s@),
        decreases n - pos,
    {
        let c: char = s.get_char(pos);
        let ghost names_old: Seq<Seq<char>> = names.deep_view();
        if c == '{' {
            match find_close(s, pos + 1) {
                Some(j) => {
                    proof {
                        lemma_scan_span(s@, pos as int, j as int);
                    }
                    let body: &str = s.substring_char(pos + 1, j);
                    names.push(body.to_owned());
                    proof {
                        assert(names.deep_view() =~= names_old.push(s@.subrange(
                            pos as int + 1,
                            j as int,
                        )));
                        assert(names.deep_view() + spec_names(s@.skip(j + 1)) =~= names_old
                            + spec_names(s@.skip(pos as int)));
                    }
                    pos = j + 1;
                },
                None => {
                    proof {
                        lemma_scan_copy(s@, pos as int);
                    }
                    pos += 1;
                },
            }
        } else {
            proof {
                lemma_scan_copy(s@, pos as int);
            }
            pos += 1;
        }
    }
    proof {
        assert(s@.skip(n as int) =~= Seq::<char>::empty());
        assert(names.deep_view() + spec_names(s@.skip(n as int)) =~= names.deep_view());
    }
    let count: usize = names.len();
    let mut i: usize = 0;
    while i < count
        invariant
            i <= count,
            count == names.len(),
            names.deep_view() == spec_names(s@),
            forall|p: int| 0 <= p < i ==> spec_is_identifier(#[trigger] names.deep_view()[p]),
            forall|p: int, q: int|
                0 <= p < q < i ==> names.deep_view()[p] != names.deep_view()[q],
        decreases count - i,
    {
        if !is_identifier(names[i].as_str()) {
            proof {
                assert(!spec_is_identifier(spec_names(s@)[i as int]));
            }
            return Err(ParseError {});
        }
        let mut q: usize = 0;
        while q < i
            invariant
                q <= i < count,
                count == names.len(),
                names.deep_view() == spec_names(s@),
                forall|p: int| 0 <= p < q ==> names.deep_view()[p] != names.deep_view()[i as int],
            decreases i - q,
        {
            if names[q] == names[i] {
                proof {
                    assert(names.deep_view()[q as int] == names.deep_view()[i as int]);
                    assert(!distinct(spec_names(s@)));
                }
                return Err(ParseError {});
            }
            q += 1;
        }
        i += 1;
    }
    Ok(names)
}

} // verus!
