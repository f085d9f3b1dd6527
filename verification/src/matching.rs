//! Matching a concrete path segment against a compiled template.
//!
//! The literal parts of a template, in order, induce a pattern: the first
//! part, then, before each following part, a nonempty capture.  A capture is
//! greedy: it takes as many characters as it can while the rest of the
//! pattern can still match, giving characters back one at a time.  The
//! pattern must consume the whole input; literal parts are matched
//! character for character, never interpreted.

use vstd::prelude::*;
use vstd::string::*;

verus! {

/// The literal `p` stands in `t` at character position `pos`.
pub open spec fn lit_at(t: Seq<char>, pos: int, p: Seq<char>) -> bool {
    &&& 0 <= pos
    &&& pos + p.len() <= t.len()
    &&& t.subrange(pos, pos + p.len()) == p
}

/// Continue a match once `parts[..idx]` has consumed `t[..pos]`: each
/// remaining part is preceded by one nonempty capture, and the final part
/// ends exactly at the end of `t`.
pub open spec fn spec_match_from(
    parts: Seq<Seq<char>>,
    idx: int,
    t: Seq<char>,
    pos: int,
) -> Option<Seq<Seq<char>>>
    decreases parts.len() - idx, t.len() + 2,
{
    if !(1 <= idx <= parts.len()) || !(0 <= pos <= t.len()) {
        None
    } else if idx == parts.len() {
        if pos == t.len() {
            Some(Seq::empty())
        } else {
            None
        }
    } else {
        let room = t.len() - pos - parts[idx].len();
        spec_try_caps(parts, idx, t, pos, if room >= 1 { room } else { 0 })
    }
}

/// Try the lengths of the capture that precedes `parts[idx]`, longest
/// first, from `n` characters down to one.
pub open spec fn spec_try_caps(
    parts: Seq<Seq<char>>,
    idx: int,
    t: Seq<char>,
    pos: int,
    n: int,
) -> Option<Seq<Seq<char>>>
    decreases parts.len() - idx, if n >= 0 { n + 1 } else { 0 },
{
    if !(1 <= idx < parts.len()) || !(0 <= pos <= t.len()) || n < 1 {
        None
    } else if lit_at(t, pos + n, parts[idx]) {
        match spec_match_from(parts, idx + 1, t, pos + n + parts[idx].len()) {
            Some(caps) => Some(seq![t.subrange(pos, pos + n)] + caps),
            None => spec_try_caps(parts, idx, t, pos, n - 1),
        }
    } else {
        spec_try_caps(parts, idx, t, pos, n - 1)
    }
}

/// Match `t` against the whole pattern: the ordered captures when the
/// pattern consumes all of `t`, `None` otherwise.
pub open spec fn spec_match(parts: Seq<Seq<char>>, t: Seq<char>) -> Option<Seq<Seq<char>>> {
    if parts.len() >= 1 && lit_at(t, 0, parts[0]) {
        spec_match_from(parts, 1, t, parts[0].len() as int)
    } else {
        None
    }
}

/// What it means for captures to complete a match from `parts[idx]` at
/// position `pos`: each capture is nonempty, stands at its position in `t`,
/// is followed there by the next literal part, and the final literal part
/// ends exactly at the end of `t`.
pub open spec fn decomposes(
    parts: Seq<Seq<char>>,
    idx: int,
    t: Seq<char>,
    pos: int,
    caps: Seq<Seq<char>>,
) -> bool
    decreases parts.len() - idx,
{
    if !(1 <= idx <= parts.len()) || !(0 <= pos <= t.len()) {
        false
    } else if idx == parts.len() {
        caps.len() == 0 && pos == t.len()
    } else {
        &&& caps.len() == parts.len() - idx
        &&& caps[0].len() >= 1
        &&& pos + caps[0].len() <= t.len()
        &&& caps[0] == t.subrange(pos, pos + caps[0].len())
        &&& lit_at(t, pos + caps[0].len(), parts[idx])
        &&& decomposes(
            parts,
            idx + 1,
            t,
            pos + caps[0].len() + parts[idx].len(),
            caps.drop_first(),
        )
    }
}

/// A decomposition of the whole of `t` by the pattern: the first literal
/// part opens `t`, and the captures lay the remaining parts out over the
/// rest of it.
pub open spec fn decomposition(parts: Seq<Seq<char>>, t: Seq<char>, caps: Seq<Seq<char>>) -> bool {
    &&& parts.len() >= 1
    &&& lit_at(t, 0, parts[0])
    &&& decomposes(parts, 1, t, parts[0].len() as int, caps)
}

proof fn lemma_from_sound(parts: Seq<Seq<char>>, idx: int, t: Seq<char>, pos: int, caps: Seq<
    Seq<char>,
>)
    requires
        spec_match_from(parts, idx, t, pos) == Some(caps),
    ensures
        decomposes(parts, idx, t, pos, caps),
    decreases parts.len() - idx, t.len() + 2,
{
    if idx < parts.len() {
        let room: int = t.len() - pos - parts[idx].len();
        lemma_caps_sound(parts, idx, t, pos, if room >= 1 { room } else { 0 }, caps);
    }
}

proof fn lemma_caps_sound(
    parts: Seq<Seq<char>>,
    idx: int,
    t: Seq<char>,
    pos: int,
    n: int,
    caps: Seq<Seq<char>>,
)
    requires
        spec_try_caps(parts, idx, t, pos, n) == Some(caps),
    ensures
        decomposes(parts, idx, t, pos, caps),
        1 <= caps[0].len() <= n,
    decreases parts.len() - idx, if n >= 0 { n + 1 } else { 0 },
{
    let p: Seq<char> = parts[idx];
    if lit_at(t, pos + n, p) {
        match spec_match_from(parts, idx + 1, t, pos + n + p.len()) {
            Some(inner) => {
                assert(caps == seq![t.subrange(pos, pos + n)] + inner);
                lemma_from_sound(parts, idx + 1, t, pos + n + p.len(), inner);
                assert(caps.drop_first() =~= inner);
                assert(caps[0] == t.subrange(pos, pos + n));
                if idx + 1 == parts.len() {
                    assert(inner.len() == 0);
                } else {
                    assert(inner.len() == parts.len() - idx - 1);
                }
            },
            None => {
                lemma_caps_sound(parts, idx, t, pos, n - 1, caps);
            },
        }
    } else {
        lemma_caps_sound(parts, idx, t, pos, n - 1, caps);
    }
}

proof fn lemma_from_complete(parts: Seq<Seq<char>>, idx: int, t: Seq<char>, pos: int, caps: Seq<
    Seq<char>,
>)
    requires
        decomposes(parts, idx, t, pos, caps),
    ensures
        spec_match_from(parts, idx, t, pos) is Some,
    decreases parts.len() - idx, t.len() + 2,
{
    if idx < parts.len() {
        let room: int = t.len() - pos - parts[idx].len();
        assert(caps[0].len() <= room);
        lemma_caps_complete(parts, idx, t, pos, if room >= 1 { room } else { 0 }, caps);
    }
}

proof fn lemma_caps_complete(
    parts: Seq<Seq<char>>,
    idx: int,
    t: Seq<char>,
    pos: int,
    n: int,
    caps: Seq<Seq<char>>,
)
    requires
        decomposes(parts, idx, t, pos, caps),
        idx < parts.len(),
        caps[0].len() <= n,
    ensures
        spec_try_caps(parts, idx, t, pos, n) is Some,
    decreases parts.len() - idx, if n >= 0 { n + 1 } else { 0 },
{
    let p: Seq<char> = parts[idx];
    if lit_at(t, pos + n, p) && spec_match_from(parts, idx + 1, t, pos + n + p.len()) is Some {
    } else {
        if n == caps[0].len() {
            assert(lit_at(t, pos + n, p));
            lemma_from_complete(parts, idx + 1, t, pos + n + p.len(), caps.drop_first());
            assert(false);
        } else {
            lemma_caps_complete(parts, idx, t, pos, n - 1, caps);
        }
    }
}

/// Soundness of matching: a successful match hands back one capture per
/// placeholder, and the captures decompose the segment along the
/// template's literal boundaries.
pub proof fn lemma_match_sound(parts: Seq<Seq<char>>, t: Seq<char>, caps: Seq<Seq<char>>)
    requires
        spec_match(parts, t) == Some(caps),
    ensures
        decomposition(parts, t, caps),
        caps.len() == parts.len() - 1,
{
    lemma_from_sound(parts, 1, t, parts[0].len() as int, caps);
}

/// Completeness of matching: when any choice of captures lays the literal
/// parts out over the whole segment, the match does not return absent.
pub proof fn lemma_match_complete(parts: Seq<Seq<char>>, t: Seq<char>, caps: Seq<Seq<char>>)
    requires
        decomposition(parts, t, caps),
    ensures
        spec_match(parts, t) is Some,
{
    lemma_from_complete(parts, 1, t, parts[0].len() as int, caps);
}

/// Does the literal `p` stand in `t` at character position `pos`?
pub(crate) fn has_lit_at(t: &str, pos: usize, p: &str) -> (b: bool)
    ensures
        b == lit_at(t@, pos as int, p@),
{
    let tn: usize = t.unicode_len();
    let pn: usize = p.unicode_len();
    if pn > tn || pos > tn - pn {
        return false;
    }
    let mut j: usize = 0;
    while j < pn
        invariant
            j <= pn,
            pn == p@.len(),
            tn == t@.len(),
            pos + pn <= tn,
            forall|q: int| 0 <= q < j ==> t@[pos + q] == #[trigger] p@[q],
        decreases pn - j,
    {
        let tc: char = t.get_char(pos + j);
        let pc: char = p.get_char(j);
        if tc != pc {
            proof {
                let sub: Seq<char> = t@.subrange(pos as int, pos + p@.len());
                assert(sub[j as int] == t@[pos + j]);
            }
            return false;
        }
        j += 1;
    }
    proof {
        assert(t@.subrange(pos as int, pos + p@.len()) =~= p@);
    }
    true
}

/// Continue a match after `parts[..idx]`, trying greedy captures.
pub(crate) fn match_from<'a>(parts: &Vec<String>, idx: usize, t: &'a str, pos: usize) -> (r: Option<
    Vec<&'a str>,
>)
    requires
        1 <= idx <= parts@.len(),
        pos <= t@.len(),
    ensures
        r.deep_view() == spec_match_from(parts.deep_view(), idx as int, t@, pos as int),
    decreases parts@.len() - idx,
{
    let tn: usize = t.unicode_len();
    let pcount: usize = parts.len();
    if idx == pcount {
        if pos == tn {
            let r: Option<Vec<&'a str>> = Some(Vec::new());
            proof {
                assert(r.deep_view() matches Some(v) && v =~= Seq::<Seq<char>>::empty());
            }
            return r;
        } else {
            return None;
        }
    }
    let plen: usize = parts[idx].as_str().unicode_len();
    proof {
        assert(parts.deep_view()[idx as int] == parts@[idx as int]@);
    }
    let room: usize = if plen >= tn || pos >= tn - plen {
        0
    } else {
        tn - pos - plen
    };
    proof {
        let ghost_room: int = t@.len() - pos - parts.deep_view()[idx as int].len();
        assert(spec_match_from(parts.deep_view(), idx as int, t@, pos as int) == spec_try_caps(
            parts.deep_view(),
            idx as int,
            t@,
            pos as int,
            if ghost_room >= 1 {
                ghost_room
            } else {
                0
            },
        ));
    }
    if room == 0 {
        return None;
    }
    let mut n: usize = room;
    while n >= 1
        invariant
            1 <= idx < pcount,
            pcount == parts@.len(),
            pos <= t@.len(),
            n <= room,
            tn == t@.len(),
            pos + room + plen <= tn,
            plen == parts.deep_view()[idx as int].len(),
            spec_match_from(parts.deep_view(), idx as int, t@, pos as int) == spec_try_caps(
                parts.deep_view(),
                idx as int,
                t@,
                pos as int,
                room as int,
            ),
            spec_try_caps(parts.deep_view(), idx as int, t@, pos as int, room as int)
                == spec_try_caps(parts.deep_view(), idx as int, t@, pos as int, n as int),
        decreases n,
    {
        if has_lit_at(t, pos + n, parts[idx].as_str()) {
            match match_from(parts, idx + 1, t, pos + n + plen) {
                Some(caps) => {
                    let ghost caps_dv: Seq<Seq<char>> = caps.deep_view();
                    let mut caps: Vec<&'a str> = caps;
                    let cap: &'a str = t.substring_char(pos, pos + n);
                    caps.insert(0, cap);
                    proof {
                        assert(caps.deep_view() =~= seq![t@.subrange(pos as int, pos + n)]
                            + caps_dv);
                        let dv: Seq<Seq<char>> = parts.deep_view();
                        assert(lit_at(t@, pos + n, dv[idx as int]));
                        assert(spec_match_from(dv, idx as int + 1, t@, pos + n + plen) == Some(
                            caps_dv,
                        ));
                        assert(spec_try_caps(dv, idx as int, t@, pos as int, n as int) == Some(
                            seq![t@.subrange(pos as int, pos + n)] + caps_dv,
                        ));
                    }
                    let r: Option<Vec<&'a str>> = Some(caps);
                    proof {
                        assert(r.deep_view() matches Some(v) && v == seq![
                            t@.subrange(pos as int, pos + n),
                        ] + caps_dv);
                    }
                    return r;
                },
                None => {},
            }
        }
        n -= 1;
    }
    None
}

} // verus!
