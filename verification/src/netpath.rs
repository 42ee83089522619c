//! Port selection and path checks, as decisions over probe results: the
//! probing itself (binding a socket, touching the file system) stays with
//! the caller, which hands in what it observed.

use vstd::prelude::*;
use crate::seq_lemmas::lemma_filter_push;
use crate::seq_lemmas::lemma_subrange_all;
use crate::seq_lemmas::lemma_subrange_push;

verus! {

/// Why a path was rejected.
#[derive(Debug, Clone, Copy, PartialEq, Eq, Structural)]
pub enum PathError {
    Missing,
    NotADirectory,
}

/// Accepts a path that exists and is a directory, given what a probe of
/// the file system observed about it.
pub fn ensure_path_exists(exists: bool, is_dir: bool) -> (r: Result<(), PathError>)
    ensures
        !exists ==> r matches Err(PathError::Missing),
        exists && !is_dir ==> r matches Err(PathError::NotADirectory),
        exists && is_dir ==> r is Ok,
{
    if !exists {
        Err(PathError::Missing)
    } else if !is_dir {
        Err(PathError::NotADirectory)
    } else {
        Ok(())
    }
}

/// The first port of `[start, end]` whose probe found it free; `free[k]`
/// reports the probe of port `start + k`.
pub fn find_available_port_in_range(start: u16, end: u16, free: &Vec<bool>) -> (r: Option<u16>)
    requires
        start <= end,
        free@.len() == end - start + 1,
    ensures
        match r {
            Some(p) => start <= p <= end && free@[p - start]
                && forall|k: int| 0 <= k < p - start ==> !(#[trigger] free@[k]),
            None => forall|k: int| 0 <= k < free@.len() ==> !free@[k],
        },
{
    let n = free.len();
    let mut k: usize = 0;
    while k < n
        invariant
            n == free@.len(),
            k <= n,
            start <= end,
            n == end - start + 1,
            forall|j: int| 0 <= j < k ==> !free@[j],
        decreases n - k,
    {
        if free[k] {
            let p = start + (k as u16);
            return Some(p);
        }
        k = k + 1;
    }
    None
}

/// The pieces of a path text between its separators, in order; around
/// every separator there is a piece, so an empty text has one empty
/// piece and `"a//b"` has an empty piece in the middle.
pub open spec fn split_segments(s: Seq<char>) -> Seq<Seq<char>>
    decreases s.len(),
{
    if s.len() == 0 {
        seq![Seq::empty()]
    } else if s.last() == '/' {
        split_segments(s.drop_last()).push(Seq::empty())
    } else {
        let sp = split_segments(s.drop_last());
        sp.update(sp.len() - 1, sp.last().push(s.last()))
    }
}

/// There is always at least one piece.
pub proof fn lemma_split_segments_len(s: Seq<char>)
    ensures
        split_segments(s).len() >= 1,
    decreases s.len(),
{
    if s.len() > 0 {
        lemma_split_segments_len(s.drop_last());
    }
}

/// The pieces a normalized path keeps: nonempty ones that are not the
/// current-directory dot.
pub open spec fn keep_seg() -> spec_fn(Seq<char>) -> bool {
    |seg: Seq<char>| seg.len() > 0 && seg != seq!['.']
}

/// The pieces joined with single separators.
pub open spec fn join_segments(segs: Seq<Seq<char>>) -> Seq<char>
    decreases segs.len(),
{
    if segs.len() == 0 {
        Seq::empty()
    } else if segs.len() == 1 {
        segs[0]
    } else {
        join_segments(segs.drop_last()) + seq!['/'] + segs.last()
    }
}

/// A relative path whose first piece is the bare current-directory dot.
pub open spec fn leading_dot(s: Seq<char>) -> bool {
    s.len() >= 1 && s[0] == '.' && (s.len() == 1 || s[1] == '/')
}

/// A path in normal form: empty and dot pieces dropped, single
/// separators, no trailing separator; a leading separator is kept, and so
/// is a bare leading current-directory dot, as Rust's standard path
/// component iteration keeps it.
pub open spec fn normalize_model(s: Seq<char>) -> Seq<char> {
    let kept = split_segments(s).filter(keep_seg());
    if s.len() > 0 && s[0] == '/' {
        seq!['/'] + join_segments(kept)
    } else if leading_dot(s) {
        if kept.len() == 0 {
            seq!['.']
        } else {
            seq!['.', '/'] + join_segments(kept)
        }
    } else {
        join_segments(kept)
    }
}

/// Rewrites a path into normal form.
pub fn normalize_path(path: &str) -> (r: String)
    ensures
        r@ == normalize_model(path@),
{
    let n = path.unicode_len();
    let mut kept: Vec<String> = Vec::new();
    let ghost mut done: Seq<Seq<char>> = Seq::empty();
    let mut start: usize = 0;
    let mut pos: usize = 0;
    let dot = String::from_str(".");
    proof {
        reveal_strlit(".");
        assert(dot@ =~= seq!['.']);
        assert(path@.subrange(0, 0) =~= Seq::<char>::empty());
        assert(split_segments(path@.subrange(0, 0)) =~= seq![Seq::<char>::empty()]);
        assert(done.push(path@.subrange(0, 0)) =~= seq![Seq::<char>::empty()]);
        reveal_with_fuel(Seq::filter, 1);
        assert(kept@.map_values(|t: String| t@) =~= done.filter(keep_seg()));
    }
    while pos < n
        invariant
            n == path@.len(),
            start <= pos <= n,
            dot@ == seq!['.'],
            split_segments(path@.subrange(0, pos as int))
                == done.push(path@.subrange(start as int, pos as int)),
            kept@.map_values(|t: String| t@) == done.filter(keep_seg()),
        decreases n - pos,
    {
        proof {
            lemma_subrange_push(path@, pos as int);
            lemma_split_segments_len(path@.subrange(0, pos as int));
        }
        let c = path.get_char(pos);
        proof {
            assert(path@.subrange(0, pos + 1 as int)
                =~= path@.subrange(0, pos as int).push(c));
            assert(path@.subrange(0, pos + 1 as int).drop_last()
                =~= path@.subrange(0, pos as int));
            assert(path@.subrange(0, pos + 1 as int).last() == c);
        }
        if c == '/' {
            let ghost seg = path@.subrange(start as int, pos as int);
            proof {
                assert(split_segments(path@.subrange(0, pos + 1 as int))
                    =~= done.push(seg).push(Seq::<char>::empty()));
                lemma_filter_push(done, seg, keep_seg());
            }
            if pos > start {
                let piece = path.substring_char(start, pos);
                let ps = String::from_str(piece);
                if !(ps == dot) {
                    let ghost k0 = kept@;
                    kept.push(ps);
                    proof {
                        crate::seq_lemmas::lemma_map_values_push(k0, kept@[k0.len() as int],
                            |t: String| t@);
                        assert(keep_seg()(seg));
                        assert(kept@.map_values(|t: String| t@)
                            =~= done.push(seg).filter(keep_seg()));
                    }
                } else {
                    proof {
                        assert(!keep_seg()(seg));
                    }
                }
            } else {
                proof {
                    assert(seg =~= Seq::<char>::empty());
                    assert(!keep_seg()(seg));
                }
            }
            proof {
                done = done.push(seg);
            }
            start = pos + 1;
            proof {
                assert(path@.subrange(pos + 1 as int, pos + 1 as int) =~= Seq::<char>::empty());
            }
        } else {
            proof {
                let pre = path@.subrange(0, pos as int);
                let cur = path@.subrange(start as int, pos as int);
                let sp = split_segments(pre);
                assert(sp == done.push(cur));
                assert(sp.update(sp.len() - 1, sp.last().push(c))
                    =~= done.push(cur.push(c)));
                assert(cur.push(c) =~= path@.subrange(start as int, pos + 1 as int));
            }
        }
        pos = pos + 1;
    }
    proof {
        lemma_subrange_all(path@);
        lemma_filter_push(done, path@.subrange(start as int, n as int), keep_seg());
    }
    if pos > start {
        let piece = path.substring_char(start, pos);
        let ps = String::from_str(piece);
        if !(ps == dot) {
            let ghost k0 = kept@;
            kept.push(ps);
            proof {
                crate::seq_lemmas::lemma_map_values_push(k0, kept@[k0.len() as int],
                    |t: String| t@);
                assert(keep_seg()(path@.subrange(start as int, n as int)));
                assert(kept@.map_values(|t: String| t@)
                    =~= done.push(path@.subrange(start as int, n as int)).filter(keep_seg()));
            }
        } else {
            proof {
                assert(!keep_seg()(path@.subrange(start as int, n as int)));
            }
        }
    } else {
        proof {
            assert(path@.subrange(start as int, n as int) =~= Seq::<char>::empty());
            assert(!keep_seg()(path@.subrange(start as int, n as int)));
        }
    }
    let ghost all_kept = split_segments(path@).filter(keep_seg());
    proof {
        assert(kept@.map_values(|t: String| t@) == all_kept);
        assert(kept@.len() == all_kept.len());
    }
    let mut out: String = String::new();
    let rooted = n > 0 && path.get_char(0) == '/';
    let dotted = !rooted && n > 0 && path.get_char(0) == '.'
        && (n == 1 || path.get_char(1) == '/');
    if rooted {
        out.append("/");
        proof {
            reveal_strlit("/");
            assert(out@ =~= seq!['/']);
        }
    } else if dotted {
        if kept.len() == 0 {
            out.append(".");
            proof {
                reveal_strlit(".");
                assert(out@ =~= seq!['.']);
            }
        } else {
            out.append("./");
            proof {
                reveal_strlit("./");
                assert(out@ =~= seq!['.', '/']);
            }
        }
    }
    let ghost root: Seq<char> = out@;
    proof {
        assert(dotted == leading_dot(path@));
        assert(out@ =~= root + join_segments(all_kept.subrange(0, 0)));
    }
    let m = kept.len();
    let mut i: usize = 0;
    while i < m
        invariant
            m == kept@.len(),
            i <= m,
            kept@.map_values(|t: String| t@) == all_kept,
            out@ == root + join_segments(all_kept.subrange(0, i as int)),
        decreases m - i,
    {
        if i > 0 {
            out.append("/");
            proof {
                reveal_strlit("/");
            }
        }
        out.append(kept[i].as_str());
        proof {
            lemma_subrange_push(all_kept, i as int);
            assert(kept@[i as int]@ == all_kept[i as int]);
            if i == 0 {
                assert(join_segments(all_kept.subrange(0, 1)) == all_kept[0]);
                assert(out@ =~= root + join_segments(all_kept.subrange(0, 1)));
            } else {
                assert(all_kept.subrange(0, i + 1 as int).drop_last()
                    =~= all_kept.subrange(0, i as int));
                assert(out@ =~= root + join_segments(all_kept.subrange(0, i + 1 as int)));
            }
        }
        i = i + 1;
    }
    proof {
        assert(all_kept.subrange(0, all_kept.len() as int) =~= all_kept);
        if rooted {
            assert(out@ =~= normalize_model(path@));
        } else if dotted {
            if all_kept.len() == 0 {
                assert(out@ =~= normalize_model(path@));
            } else {
                assert(out@ =~= normalize_model(path@));
            }
        } else {
            assert(root =~= Seq::<char>::empty());
            assert(out@ =~= normalize_model(path@));
        }
    }
    out
}

/// The first free port of the default range 3000 to 9000.
pub fn find_available_port(free: &Vec<bool>) -> (r: Option<u16>)
    requires
        free@.len() == 6001,
    ensures
        match r {
            Some(p) => 3000 <= p <= 9000 && free@[p - 3000]
                && forall|k: int| 0 <= k < p - 3000 ==> !(#[trigger] free@[k]),
            None => forall|k: int| 0 <= k < free@.len() ==> !free@[k],
        },
{
    find_available_port_in_range(3000, 9000, free)
}

} // verus!
