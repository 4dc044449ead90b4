//! HTTP byte-range handling for the serving surface: parsing `Range`
//! headers of the forms `bytes=a-b` and `bytes=a-`, planning the response
//! (full body, partial content, bad request, or not satisfiable), and
//! cutting the requested window out of the file bytes.

use vstd::prelude::*;
use vstd::slice::{slice_index_get, slice_subrange, slice_to_vec};

verus! {

/// An ASCII decimal digit.
pub open spec fn is_digit(b: u8) -> bool {
    48 <= b <= 57
}

/// Every byte is an ASCII decimal digit.
pub open spec fn all_digits(s: Seq<u8>) -> bool {
    forall|i: int| 0 <= i < s.len() ==> is_digit(#[trigger] s[i])
}

/// The numeric value of an ASCII decimal string, most significant digit
/// first.
pub open spec fn dec_value(s: Seq<u8>) -> int
    decreases s.len(),
{
    if s.len() == 0 {
        0
    } else {
        dec_value(s.drop_last()) * 10 + (s.last() - 48)
    }
}

proof fn lemma_all_digits_drop_last(s: Seq<u8>)
    requires
        all_digits(s),
        s.len() > 0,
    ensures
        all_digits(s.drop_last()),
{
    assert forall|i: int| 0 <= i < s.drop_last().len() implies is_digit(
        #[trigger] s.drop_last()[i],
    ) by {
        assert(s.drop_last()[i] == s[i]);
    }
}

proof fn lemma_dec_value_nonneg(s: Seq<u8>)
    requires
        all_digits(s),
    ensures
        dec_value(s) >= 0,
    decreases s.len(),
{
    if s.len() > 0 {
        lemma_all_digits_drop_last(s);
        lemma_dec_value_nonneg(s.drop_last());
        assert(is_digit(s.last()));
    }
}

/// The value of a digit string dominates the value of any of its prefixes.
proof fn lemma_dec_value_prefix(s: Seq<u8>, i: int)
    requires
        all_digits(s),
        0 <= i <= s.len(),
    ensures
        dec_value(s.take(i)) <= dec_value(s),
    decreases s.len(),
{
    if i < s.len() {
        lemma_all_digits_drop_last(s);
        lemma_dec_value_prefix(s.drop_last(), i);
        lemma_dec_value_nonneg(s.drop_last());
        assert(s.take(i) =~= s.drop_last().take(i));
        assert(is_digit(s.last()));
    } else {
        assert(s.take(i) =~= s);
    }
}

/// Parses an ASCII decimal number. Fails on an empty string, on any
/// non-digit byte, and on a value that does not fit in a `u64`.
pub fn parse_u64_decimal(s: &[u8]) -> (r: Option<u64>)
    ensures
        match r {
            Some(v) => s@.len() > 0 && all_digits(s@) && v == dec_value(s@),
            None => s@.len() == 0 || !all_digits(s@) || dec_value(s@) > u64::MAX,
        },
{
    let n = s.len();
    if n == 0 {
        return None;
    }
    let mut acc: u64 = 0;
    let mut i: usize = 0;
    while i < n
        invariant
            n == s@.len(),
            i <= n,
            all_digits(s@.take(i as int)),
            acc == dec_value(s@.take(i as int)),
        decreases n - i,
    {
        let b = *slice_index_get(s, i);
        proof {
            assert(s@.take(i + 1).drop_last() =~= s@.take(i as int));
            assert(s@.take(i + 1).last() == s@[i as int]);
        }
        if b < 48 || b > 57 {
            assert(!is_digit(s@[i as int]));
            return None;
        }
        let d: u64 = (b - 48) as u64;
        let stepped: Option<u64> = match acc.checked_mul(10) {
            Some(x) => x.checked_add(d),
            None => None,
        };
        match stepped {
            Some(v) => {
                acc = v;
                proof {
                    assert(all_digits(s@.take(i + 1))) by {
                        assert forall|j: int| 0 <= j < i + 1 implies is_digit(
                            #[trigger] s@.take(i + 1)[j],
                        ) by {
                            if j < i {
                                assert(s@.take(i + 1)[j] == s@.take(i as int)[j]);
                            }
                        }
                    }
                }
                i = i + 1;
            },
            None => {
                proof {
                    assert(dec_value(s@.take(i + 1)) > u64::MAX);
                    if all_digits(s@) {
                        lemma_dec_value_prefix(s@, i + 1);
                    }
                }
                return None;
            },
        }
    }
    proof {
        assert(s@.take(n as int) =~= s@);
    }
    Some(acc)
}

/// The bytes of the literal prefix `bytes=`.
pub open spec fn range_prefix() -> Seq<u8> {
    seq![98u8, 121u8, 116u8, 101u8, 115u8, 61u8]
}

/// `h` is a well-formed range header whose single dash sits at position `k`:
/// the prefix `bytes=`, a non-empty first number that fits in a `u64`, the
/// dash, and either nothing or a second such number.
pub open spec fn spec_is_range_header(h: Seq<u8>, k: int) -> bool {
    &&& h.len() >= 7
    &&& h.take(6) == range_prefix()
    &&& 6 <= k < h.len()
    &&& h[k] == 45
    &&& forall|j: int| 6 <= j < h.len() && j != k ==> #[trigger] h[j] != 45
    &&& h.subrange(6, k).len() > 0
    &&& all_digits(h.subrange(6, k))
    &&& dec_value(h.subrange(6, k)) <= u64::MAX
    &&& (k + 1 == h.len() || (all_digits(h.subrange(k + 1, h.len() as int)) && dec_value(
        h.subrange(k + 1, h.len() as int),
    ) <= u64::MAX))
}

/// The bounds named by a well-formed header with its dash at `k`: the first
/// number, and either the second number or — for the open form `bytes=a-` —
/// the last byte of the file.
pub open spec fn spec_range_bounds(h: Seq<u8>, k: int, file_size: u64) -> (int, int) {
    let a = dec_value(h.subrange(6, k));
    let b = if k + 1 == h.len() {
        if file_size > 0 {
            file_size - 1
        } else {
            0
        }
    } else {
        dec_value(h.subrange(k + 1, h.len() as int))
    };
    (a, b)
}

/// At most one dash position can make a header well-formed.
proof fn lemma_range_header_unique(h: Seq<u8>, k1: int, k2: int)
    requires
        spec_is_range_header(h, k1),
        spec_is_range_header(h, k2),
    ensures
        k1 == k2,
{
    if k1 != k2 {
        assert(h[k1] != 45);
    }
}

/// What a range header denotes: the bounds at its unique well-formed dash
/// position, or nothing if no position makes it well-formed.
pub open spec fn spec_parse_range(h: Seq<u8>, file_size: u64) -> Option<(int, int)> {
    if exists|k: int| spec_is_range_header(h, k) {
        let k = choose|k: int| spec_is_range_header(h, k);
        Some(spec_range_bounds(h, k, file_size))
    } else {
        None
    }
}

/// Parses a `Range` header against a file of `file_size` bytes. Accepts
/// exactly `bytes=a-b` and `bytes=a-`; for the open form the upper bound is
/// the last byte of the file. Any other form is rejected.
pub fn parse_range_header(header: &[u8], file_size: u64) -> (r: Option<(u64, u64)>)
    ensures
        match r {
            Some(p) => spec_parse_range(header@, file_size) == Some(
                (p.0 as int, p.1 as int),
            ),
            None => spec_parse_range(header@, file_size) is None,
        },
{
    let n = header.len();
    if n < 7 {
        return None;
    }
    // The literal prefix `bytes=`.
    let ok = *slice_index_get(header, 0) == 98 && *slice_index_get(header, 1) == 121
        && *slice_index_get(header, 2) == 116 && *slice_index_get(header, 3) == 101
        && *slice_index_get(header, 4) == 115 && *slice_index_get(header, 5) == 61;
    if !ok {
        proof {
            assert(header@.take(6) != range_prefix());
        }
        return None;
    }
    proof {
        assert(header@.take(6) =~= range_prefix());
    }
    // Find the dash; a second dash anywhere makes the header malformed.
    let mut dash: Option<usize> = None;
    let mut twice = false;
    let mut i: usize = 6;
    while i < n
        invariant
            n == header@.len(),
            6 <= i <= n,
            match dash {
                None => forall|j: int| 6 <= j < i ==> #[trigger] header@[j] != 45,
                Some(d) => 6 <= d < i && header@[d as int] == 45 && forall|j: int|
                    6 <= j < d ==> #[trigger] header@[j] != 45,
            },
            twice <==> exists|j1: int, j2: int|
                6 <= j1 < j2 < i && #[trigger] header@[j1] == 45 && #[trigger] header@[j2] == 45,
        decreases n - i,
    {
        let b = *slice_index_get(header, i);
        if b == 45 {
            match dash {
                None => { dash = Some(i); },
                Some(d) => {
                    proof {
                        assert(6 <= d < i && header@[d as int] == 45 && header@[i as int] == 45);
                    }
                    twice = true;
                },
            }
        }
        i = i + 1;
    }
    let d = match dash {
        None => {
            proof {
                assert forall|k: int| !spec_is_range_header(header@, k) by {
                    if spec_is_range_header(header@, k) {
                        assert(header@[k] != 45);
                    }
                }
            }
            return None;
        },
        Some(d) => d,
    };
    if twice {
        proof {
            let (j1, j2) = choose|j1: int, j2: int|
                6 <= j1 < j2 < n && #[trigger] header@[j1] == 45 && #[trigger] header@[j2] == 45;
            assert forall|k: int| !spec_is_range_header(header@, k) by {
                if spec_is_range_header(header@, k) {
                    if k != j1 {
                        assert(header@[j1] != 45);
                    } else {
                        assert(header@[j2] != 45);
                    }
                }
            }
        }
        return None;
    }
    // From here on, `d` is the only dash: any well-formed position is `d`.
    let a_bytes = slice_subrange(header, 6, d);
    let a = match parse_u64_decimal(a_bytes) {
        Some(a) => a,
        None => {
            proof {
                assert forall|k: int| !spec_is_range_header(header@, k) by {
                    if spec_is_range_header(header@, k) {
                        if k != d {
                            assert(header@[d as int] != 45);
                        }
                    }
                }
            }
            return None;
        },
    };
    let b: u64 = if d + 1 == n {
        if file_size > 0 {
            file_size - 1
        } else {
            0
        }
    } else {
        let b_bytes = slice_subrange(header, d + 1, n);
        match parse_u64_decimal(b_bytes) {
            Some(b) => b,
            None => {
                proof {
                    assert forall|k: int| !spec_is_range_header(header@, k) by {
                        if spec_is_range_header(header@, k) {
                            if k != d {
                                assert(header@[d as int] != 45);
                            }
                        }
                    }
                }
                return None;
            },
        }
    };
    proof {
        assert(spec_is_range_header(header@, d as int));
        let k = choose|k: int| spec_is_range_header(header@, k);
        lemma_range_header_unique(header@, k, d as int);
    }
    Some((a, b))
}

/// The serving surface's verdict on one request for a file of known size.
#[derive(Debug, Clone, Copy, PartialEq, Eq, Structural)]
pub enum RangePlan {
    /// No range header: the whole body at status 200.
    Full,
    /// A satisfiable range: status 206 with `Content-Range: start-end/total`.
    Partial { start: u64, end: u64 },
    /// A malformed or empty range: status 400.
    BadRequest,
    /// A range starting at or beyond the end of the file: status 416.
    NotSatisfiable,
}

/// Plans the response to a video request: no header streams the whole file;
/// a malformed header is a bad request; a range starting past the end is not
/// satisfiable; otherwise the upper bound is clamped to the last byte.
pub fn plan_range_request(header: Option<&[u8]>, file_size: u64) -> (r: RangePlan)
    ensures
        match header {
            None => r == RangePlan::Full,
            Some(h) => match spec_parse_range(h@, file_size) {
                None => r == RangePlan::BadRequest,
                Some(p) => if p.0 >= file_size {
                    r == RangePlan::NotSatisfiable
                } else if p.1 < p.0 {
                    r == RangePlan::BadRequest
                } else {
                    r == (RangePlan::Partial {
                        start: p.0 as u64,
                        end: if p.1 < file_size - 1 {
                            p.1 as u64
                        } else {
                            (file_size - 1) as u64
                        },
                    })
                },
            },
        },
{
    let h = match header {
        None => {
            return RangePlan::Full;
        },
        Some(h) => h,
    };
    match parse_range_header(h, file_size) {
        None => RangePlan::BadRequest,
        Some((a, b)) => {
            if a >= file_size {
                RangePlan::NotSatisfiable
            } else if b < a {
                RangePlan::BadRequest
            } else {
                let end = if b < file_size - 1 {
                    b
                } else {
                    file_size - 1
                };
                RangePlan::Partial { start: a, end }
            }
        },
    }
}

/// Copies the inclusive byte window `[start, end]` out of the file bytes.
pub fn slice_range(data: &[u8], start: u64, end: u64) -> (out: Vec<u8>)
    requires
        start <= end,
        end < data@.len(),
    ensures
        out@ == data@.subrange(start as int, end as int + 1),
{
    let n = data.len();
    let s = slice_subrange(data, start as usize, end as usize + 1);
    slice_to_vec(s)
}

/// The concatenation of the byte windows of `ranges`, in order.
pub open spec fn spec_concat_ranges(data: Seq<u8>, ranges: Seq<(int, int)>) -> Seq<u8>
    decreases ranges.len(),
{
    if ranges.len() == 0 {
        Seq::empty()
    } else {
        spec_concat_ranges(data, ranges.drop_last()) + data.subrange(
            ranges.last().0,
            ranges.last().1 + 1,
        )
    }
}

/// `ranges` is a gapless chain of inclusive ranges starting at byte 0.
pub open spec fn spec_chain_from_zero(ranges: Seq<(int, int)>) -> bool {
    &&& ranges.len() > 0
    &&& ranges[0].0 == 0
    &&& forall|i: int| 0 <= i < ranges.len() ==> 0 <= (#[trigger] ranges[i]).0 <= ranges[i].1
    &&& forall|i: int| 0 < i < ranges.len() ==> (#[trigger] ranges[i]).0 == ranges[i - 1].1 + 1
}

proof fn lemma_concat_chain(data: Seq<u8>, ranges: Seq<(int, int)>)
    requires
        spec_chain_from_zero(ranges),
        ranges.last().1 < data.len(),
    ensures
        spec_concat_ranges(data, ranges) == data.take(ranges.last().1 + 1),
    decreases ranges.len(),
{
    if ranges.len() == 1 {
        assert(spec_concat_ranges(data, ranges.drop_last()) == Seq::<u8>::empty());
        assert(Seq::<u8>::empty() + data.subrange(0, ranges.last().1 + 1) =~= data.take(
            ranges.last().1 + 1,
        ));
    } else {
        let head = ranges.drop_last();
        assert(spec_chain_from_zero(head)) by {
            assert(head[0] == ranges[0]);
            assert forall|i: int| 0 <= i < head.len() implies 0 <= (#[trigger] head[i]).0
                <= head[i].1 by {
                assert(head[i] == ranges[i]);
            }
            assert forall|i: int| 0 < i < head.len() implies (#[trigger] head[i]).0 == head[i
                - 1].1 + 1 by {
                assert(head[i] == ranges[i] && head[i - 1] == ranges[i - 1]);
            }
        }
        assert(head.last() == ranges[ranges.len() - 2]);
        assert(ranges.last().0 == head.last().1 + 1);
        assert(head.last().1 < data.len());
        lemma_concat_chain(data, head);
        let c = ranges.last().0;
        let e = ranges.last().1;
        assert(head.last().1 + 1 == c);
        assert(0 <= c <= e);
        assert(data.take(c) + data.subrange(c, e + 1) =~= data.take(e + 1));
    }
}

/// Law: serving any gapless chain of ranges that covers the whole file and
/// concatenating the bodies reproduces the file exactly.
pub proof fn lemma_range_round_trip(data: Seq<u8>, ranges: Seq<(int, int)>)
    requires
        spec_chain_from_zero(ranges),
        ranges.last().1 == data.len() - 1,
        data.len() > 0,
    ensures
        spec_concat_ranges(data, ranges) == data,
{
    lemma_concat_chain(data, ranges);
    assert(data.take(data.len() as int) =~= data);
}

} // verus!
