//! Literal parts of a template.
//!
//! Splitting the generalized form on every occurrence of the marker `{}`
//! yields the literal parts that stand between and around the placeholders.
//! A split is rejected when an interior part is empty (two placeholders with
//! no separating literal) or when any part still holds a brace (a stray or
//! unterminated brace in the original template).

use vstd::prelude::*;
use vstd::string::*;

use crate::error::ParseError;

verus! {

/// Index of the first occurrence of the marker `{}` in `g`.
pub open spec fn marker_idx(g: Seq<char>) -> Option<int>
    decreases g.len(),
{
    if g.len() < 2 {
        None
    } else if g[0] == '{' && g[1] == '}' {
        Some(0int)
    } else {
        match marker_idx(g.drop_first()) {
            None => None,
            Some(i) => Some(i + 1),
        }
    }
}

/// `g` split on every occurrence of the marker `{}`, leftmost first.
pub open spec fn spec_split(g: Seq<char>) -> Seq<Seq<char>>
    decreases g.len(),
{
    match marker_idx(g) {
        None => seq![g],
        Some(i) => if 0 <= i && i + 2 <= g.len() {
            seq![g.subrange(0, i)] + spec_split(g.skip(i + 2))
        } else {
            seq![g]
        },
    }
}

/// A sequence of characters with no brace in it.
pub open spec fn brace_free(p: Seq<char>) -> bool {
    forall|i: int| 0 <= i < p.len() ==> (#[trigger] p[i]) != '{' && p[i] != '}'
}

/// The literal parts are acceptable: no interior part is empty, and no part
/// holds a leftover brace.
pub open spec fn parts_ok(parts: Seq<Seq<char>>) -> bool {
    &&& forall|i: int| 0 < i < parts.len() - 1 ==> (#[trigger] parts[i]).len() > 0
    &&& forall|i: int| 0 <= i < parts.len() ==> brace_free(#[trigger] parts[i])
}

/// A split always yields at least one part.
pub proof fn lemma_split_len(g: Seq<char>)
    ensures
        spec_split(g).len() >= 1,
    decreases g.len(),
{
    match marker_idx(g) {
        None => {},
        Some(i) => {
            if 0 <= i && i + 2 <= g.len() {
                lemma_split_len(g.skip(i + 2));
            }
        },
    }
}

/// Find the first occurrence of the marker `{}` at or after `start`.
fn find_marker(g: &str, start: usize) -> (r: Option<usize>)
    requires
        start <= g@.len(),
    ensures
        match r {
            Some(i) => start <= i && i + 2 <= g@.len() && marker_idx(g@.skip(start as int))
                == Some(i - start),
            None => marker_idx(g@.skip(start as int)) is None,
        },
{
    let n: usize = g.unicode_len();
    let mut i: usize = start;
    while i < n && i + 1 < n
        invariant
            start <= i <= n,
            n == g@.len(),
            match marker_idx(g@.skip(i as int)) {
                Some(k) => marker_idx(g@.skip(start as int)) == Some(k + i - start),
                None => marker_idx(g@.skip(start as int)) is None,
            },
        decreases n - i,
    {
        let c0: char = g.get_char(i);
        let c1: char = g.get_char(i + 1);
        proof {
            assert(g@.skip(i as int)[0] == g@[i as int]);
            assert(g@.skip(i as int)[1] == g@[i as int + 1]);
            assert(g@.skip(i as int).drop_first() =~= g@.skip(i as int + 1));
        }
        if c0 == '{' && c1 == '}' {
            return Some(i);
        }
        i += 1;
    }
    proof {
        assert(g@.skip(i as int).len() < 2);
    }
    None
}

/// Split the generalized form of a template on the marker `{}` and check
/// the parts: no interior part may be empty and no part may hold a brace.
pub fn get_parts(generalized: &str) -> (r: Result<Vec<String>, ParseError>)
    ensures
        r is Ok <==> parts_ok(spec_split(generalized@)),
        r matches Ok(parts) ==> parts.deep_view() == spec_split(generalized@),
{
    let n: usize = generalized.unicode_len();
    let mut parts: Vec<String> = Vec::new();
    let mut pos: usize = 0;
    let mut m: Option<usize> = find_marker(generalized, 0);
    proof {
        assert(generalized@.skip(0) =~= generalized@);
        assert(parts.deep_view() =~= Seq::<Seq<char>>::empty());
    }
    while m.is_some()
        invariant
            pos <= n,
            n == generalized@.len(),
            match m {
                Some(i) => pos <= i && i + 2 <= n && marker_idx(generalized@.skip(pos as int))
                    == Some(i - pos),
                None => marker_idx(generalized@.skip(pos as int)) is None,
            },
            spec_split(generalized@) == parts.deep_view() + spec_split(
                generalized@.skip(pos as int),
            ),
        decreases n - pos,
    {
        let i: usize = m.unwrap();
        let ghost parts_old: Seq<Seq<char>> = parts.deep_view();
        let piece: &str = generalized.substring_char(pos, i);
        parts.push(piece.to_owned());
        proof {
            let gv: Seq<char> = generalized@;
            assert(gv.skip(pos as int).subrange(0, i - pos) =~= gv.subrange(pos as int, i as int));
            assert(gv.skip(pos as int).skip(i - pos + 2) =~= gv.skip(i as int + 2));
            assert(parts.deep_view() =~= parts_old.push(gv.subrange(pos as int, i as int)));
            assert(parts.deep_view() + spec_split(gv.skip(i as int + 2)) =~= parts_old
                + spec_split(gv.skip(pos as int)));
        }
        pos = i + 2;
        m = find_marker(generalized, pos);
    }
    let last: &str = generalized.substring_char(pos, n);
    parts.push(last.to_owned());
    proof {
        let gv: Seq<char> = generalized@;
        assert(gv.skip(pos as int) =~= gv.subrange(pos as int, n as int));
        assert(parts.deep_view() =~= parts.deep_view().drop_last().push(gv.skip(pos as int)));
        assert(parts.deep_view() =~= parts.deep_view().drop_last() + spec_split(
            gv.skip(pos as int),
        ));
        assert(parts.deep_view() =~= spec_split(gv));
    }
    let count: usize = parts.len();
    if count > 1 {
        let mut i: usize = 1;
        while i < count && i + 1 < count
            invariant
                1 <= i <= count,
                count == parts.len(),
                parts.deep_view() == spec_split(generalized@),
                forall|p: int| 0 < p < i ==> (#[trigger] parts.deep_view()[p]).len() > 0,
            decreases count - i,
        {
            if parts[i].as_str().is_empty() {
                proof {
                    assert(spec_split(generalized@)[i as int].len() == 0);
                }
                return Err(ParseError {});
            }
            i += 1;
        }
    }
    let mut i: usize = 0;
    while i < count
        invariant
            i <= count,
            count == parts.len(),
            parts.deep_view() == spec_split(generalized@),
            forall|p: int| 0 < p < count - 1 ==> (#[trigger] parts.deep_view()[p]).len() > 0,
            forall|p: int| 0 <= p < i ==> brace_free(#[trigger] parts.deep_view()[p]),
        decreases count - i,
    {
        let part: &str = parts[i].as_str();
        let plen: usize = part.unicode_len();
        let mut j: usize = 0;
        while j < plen
            invariant
                j <= plen,
                plen == part@.len(),
                part@ == parts.deep_view()[i as int],
                i < count,
                count == parts.len(),
                parts.deep_view() == spec_split(generalized@),
                forall|q: int| 0 <= q < j ==> part@[q] != '{' && #[trigger] part@[q] != '}',
            decreases plen - j,
        {
            let c: char = part.get_char(j);
            if c == '{' || c == '}' {
                proof {
                    assert(!brace_free(spec_split(generalized@)[i as int]));
                }
                return Err(ParseError {});
            }
            j += 1;
        }
        proof {
            assert(brace_free(parts.deep_view()[i as int]));
        }
        i += 1;
    }
    Ok(parts)
}

} // verus!
