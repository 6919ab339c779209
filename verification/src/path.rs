//! Paths and path patterns as ordered sequences of segments.
//!
//! A path is split on `/`. The leading empty piece produced by a leading
//! slash and the empty piece produced by a single trailing slash are
//! dropped, so `/a/b` and `/a/b/` denote the same segment sequence.
//!
//! A pattern segment starting with `:` binds one path segment to a name; a
//! segment starting with `*` binds the whole remainder of the path to a name
//! and is legal only in the final position; every other segment is a literal
//! matched byte for byte.

use vstd::prelude::*;
use crate::message::RegistrationError;

verus! {

/// The path separator byte, `/`.
pub const SLASH: u8 = 47;

/// The marker byte of a named segment, `:`.
pub const COLON: u8 = 58;

/// The marker byte of a wildcard segment, `*`.
pub const STAR: u8 = 42;

/// The pieces of `s[start..]` split on `/`, scanning from index `i`;
/// `start <= i` marks the beginning of the piece under construction.
pub open spec fn split_from(s: Seq<u8>, i: int, start: int) -> Seq<Seq<u8>>
    decreases s.len() - i,
{
    if i < 0 || i >= s.len() {
        seq![s.subrange(start, s.len() as int)]
    } else if s[i] == SLASH {
        seq![s.subrange(start, i)] + split_from(s, i + 1, i + 1)
    } else {
        split_from(s, i + 1, start)
    }
}

/// All pieces of `s` split on `/`, empty pieces included.
pub open spec fn raw_pieces(s: Seq<u8>) -> Seq<Seq<u8>> {
    split_from(s, 0, 0)
}

/// Drop the empty piece of a leading slash and the empty piece of a single
/// trailing slash.
pub open spec fn normalize(pieces: Seq<Seq<u8>>) -> Seq<Seq<u8>> {
    let a = if pieces.len() > 0 && pieces[0].len() == 0 {
        pieces.drop_first()
    } else {
        pieces
    };
    if a.len() > 0 && a[a.len() - 1].len() == 0 {
        a.drop_last()
    } else {
        a
    }
}

/// The segment sequence a path denotes.
pub open spec fn path_segments(s: Seq<u8>) -> Seq<Seq<u8>> {
    normalize(raw_pieces(s))
}

/// The views of a sequence of byte vectors.
pub open spec fn views(v: Seq<Vec<u8>>) -> Seq<Seq<u8>> {
    v.map_values(|x: Vec<u8>| x@)
}

/// Split a path into its segment sequence.
pub fn split_path(s: &Vec<u8>) -> (r: Vec<Vec<u8>>)
    ensures
        views(r@) == path_segments(s@),
{
    let n: usize = s.len();
    let mut pieces: Vec<Vec<u8>> = Vec::new();
    let mut cur: Vec<u8> = Vec::new();
    let mut i: usize = 0;
    let mut start: usize = 0;
    while i < n
        invariant
            n == s@.len(),
            0 <= start <= i <= n,
            cur@ == s@.subrange(start as int, i as int),
            views(pieces@) + split_from(s@, i as int, start as int) == raw_pieces(s@),
        decreases n - i,
    {
        if s[i] == SLASH {
            pieces.push(cur);
            cur = Vec::new();
            proof {
                assert(views(pieces@) =~= views(pieces@.drop_last()).push(pieces@.last()@));
                assert(views(pieces@) + split_from(s@, i as int + 1, i as int + 1)
                    =~= views(pieces@.drop_last()) + split_from(s@, i as int, start as int));
            }
            start = i + 1;
        } else {
            cur.push(s[i]);
            proof {
                assert(cur@ =~= s@.subrange(start as int, i as int + 1));
            }
        }
        i += 1;
    }
    pieces.push(cur);
    proof {
        assert(views(pieces@) =~= views(pieces@.drop_last()).push(pieces@.last()@));
        assert(views(pieces@) =~= raw_pieces(s@));
    }
    // normalize: drop a leading empty piece, then one trailing empty piece
    if pieces.len() > 0 && pieces[0].len() == 0 {
        let _ = pieces.remove(0);
    }
    if pieces.len() > 0 && pieces[pieces.len() - 1].len() == 0 {
        let _ = pieces.pop();
    }
    proof {
        assert(views(pieces@) =~= path_segments(s@));
    }
    pieces
}

/// One segment of a path pattern.
pub enum Segment {
    /// Matches exactly this byte string.
    Literal(Vec<u8>),
    /// Matches any one segment, binding it to this parameter name.
    Named(Vec<u8>),
    /// Matches the whole remainder of the path, binding it to this
    /// parameter name; legal only as the final segment.
    Wildcard(Vec<u8>),
}

/// The mathematical form of a pattern segment.
pub enum SegmentModel {
    Literal(Seq<u8>),
    Named(Seq<u8>),
    Wildcard(Seq<u8>),
}

impl View for Segment {
    type V = SegmentModel;

    open spec fn view(&self) -> SegmentModel {
        match self {
            Segment::Literal(b) => SegmentModel::Literal(b@),
            Segment::Named(b) => SegmentModel::Named(b@),
            Segment::Wildcard(b) => SegmentModel::Wildcard(b@),
        }
    }
}

/// The views of a sequence of segments.
pub open spec fn segment_views(v: Seq<Segment>) -> Seq<SegmentModel> {
    v.map_values(|x: Segment| x@)
}

/// The pattern segment a piece of a pattern path denotes.
pub open spec fn segment_of(b: Seq<u8>) -> SegmentModel {
    if b.len() > 0 && b[0] == COLON {
        SegmentModel::Named(b.subrange(1, b.len() as int))
    } else if b.len() > 0 && b[0] == STAR {
        SegmentModel::Wildcard(b.subrange(1, b.len() as int))
    } else {
        SegmentModel::Literal(b)
    }
}

/// The segments a pattern path denotes.
pub open spec fn pattern_of(s: Seq<u8>) -> Seq<SegmentModel> {
    path_segments(s).map_values(|b: Seq<u8>| segment_of(b))
}

/// A pattern is well formed when every wildcard stands in the final position.
pub open spec fn pattern_ok(p: Seq<SegmentModel>) -> bool {
    forall|i: int| 0 <= i < p.len() - 1 ==> !(#[trigger] p[i] is Wildcard)
}

/// Parse a pattern path into its segments; rejects a pattern with a
/// wildcard anywhere but the final position.
pub fn parse_pattern(s: &Vec<u8>) -> (r: Result<Vec<Segment>, RegistrationError>)
    ensures
        r is Ok <==> pattern_ok(pattern_of(s@)),
        r matches Ok(p) ==> segment_views(p@) == pattern_of(s@),
        r matches Err(e) ==> e == RegistrationError::MalformedPattern,
{
    let pieces = split_path(s);
    let n: usize = pieces.len();
    let mut out: Vec<Segment> = Vec::new();
    let mut i: usize = 0;
    while i < n
        invariant
            n == pieces@.len(),
            0 <= i <= n,
            views(pieces@) == path_segments(s@),
            out@.len() == i,
            forall|j: int| 0 <= j < i ==> #[trigger] out@[j]@ == segment_of(pieces@[j]@),
            forall|j: int| 0 <= j < i && j < n - 1 ==> !(#[trigger] out@[j]@ is Wildcard),
        decreases n - i,
    {
        let piece = &pieces[i];
        let seg: Segment = if piece.len() > 0 && piece[0] == COLON {
            let mut name: Vec<u8> = Vec::new();
            let mut k: usize = 1;
            while k < piece.len()
                invariant
                    1 <= k <= piece@.len(),
                    name@ == piece@.subrange(1, k as int),
                decreases piece@.len() - k,
            {
                name.push(piece[k]);
                proof {
                    assert(name@ =~= piece@.subrange(1, k as int + 1));
                }
                k += 1;
            }
            Segment::Named(name)
        } else if piece.len() > 0 && piece[0] == STAR {
            if i + 1 < n {
                proof {
                    assert(pattern_of(s@)[i as int] is Wildcard);
                }
                return Err(RegistrationError::MalformedPattern);
            }
            let mut name: Vec<u8> = Vec::new();
            let mut k: usize = 1;
            while k < piece.len()
                invariant
                    1 <= k <= piece@.len(),
                    name@ == piece@.subrange(1, k as int),
                decreases piece@.len() - k,
            {
                name.push(piece[k]);
                proof {
                    assert(name@ =~= piece@.subrange(1, k as int + 1));
                }
                k += 1;
            }
            Segment::Wildcard(name)
        } else {
            Segment::Literal(crate::bytes::copy_bytes(piece))
        };
        proof {
            assert(views(pieces@)[i as int] == pieces@[i as int]@);
            assert(seg@ == segment_of(pieces@[i as int]@));
        }
        out.push(seg);
        i += 1;
    }
    proof {
        assert(segment_views(out@) =~= pattern_of(s@));
    }
    Ok(out)
}

} // verus!
