use vstd::prelude::*;

verus! {

/// A transport response split into its header block (delimiter included) and
/// its body.
pub struct Response {
    pub headers: Vec<u8>,
    pub body: Vec<u8>,
}

/// The header text with which the server reports that the requested range
/// lies beyond the end of the resource; it stands in for an end-of-stream
/// status and must not be read as an ordinary error.
pub open spec fn eof_marker() -> Seq<u8> {
    seq![
        52u8, 48u8, 48u8, 32u8, 73u8, 110u8, 118u8, 97u8, 108u8, 105u8, 100u8, 32u8, 114u8, 97u8,
        110u8, 103u8, 101u8, 58u8,
    ]
}

/// The blank-line delimiter `\r\n\r\n` stands at position `i` of `s`.
pub open spec fn delim_at(s: Seq<u8>, i: int) -> bool {
    &&& 0 <= i
    &&& i + 4 <= s.len()
    &&& s[i] == 13u8
    &&& s[i + 1] == 10u8
    &&& s[i + 2] == 13u8
    &&& s[i + 3] == 10u8
}

pub open spec fn has_delim(s: Seq<u8>) -> bool {
    exists|i: int| delim_at(s, i)
}

/// The delimiter stands at `i` and nowhere earlier.
pub open spec fn first_delim_at(s: Seq<u8>, i: int) -> bool {
    &&& delim_at(s, i)
    &&& forall|j: int| 0 <= j < i ==> !delim_at(s, j)
}

/// `pat` occurs as a contiguous run somewhere in `s`.
pub open spec fn contains_seq(s: Seq<u8>, pat: Seq<u8>) -> bool {
    exists|i: int| 0 <= i && i + pat.len() <= s.len() && #[trigger] s.subrange(i, i + pat.len())
        == pat
}

/// The response signals end of stream: its header block carries the
/// invalid-range marker, or its body is empty.
pub open spec fn signals_eof(headers: Seq<u8>, body: Seq<u8>) -> bool {
    contains_seq(headers, eof_marker()) || body.len() == 0
}

fn copy_range(src: &Vec<u8>, start: usize, end: usize) -> (r: Vec<u8>)
    requires
        start <= end <= src.len(),
    ensures
        r@ == src@.subrange(start as int, end as int),
{
    let mut r: Vec<u8> = Vec::new();
    let mut i: usize = start;
    proof {
        assert(r@ =~= src@.subrange(start as int, start as int));
    }
    while i < end
        invariant
            start <= i <= end <= src.len(),
            r@ == src@.subrange(start as int, i as int),
        decreases end - i,
    {
        r.push(src[i]);
        i = i + 1;
        proof {
            assert(r@ =~= src@.subrange(start as int, i as int));
        }
    }
    r
}

/// Split a raw response into header block and body at the first blank-line
/// delimiter. A response without the delimiter — the empty response included —
/// yields an empty header block and an empty body rather than an error.
pub fn parse_response(raw: &Vec<u8>) -> (r: Response)
    ensures
        has_delim(raw@) ==> exists|i: int|
            first_delim_at(raw@, i) && r.headers@ == raw@.subrange(0, i + 4) && r.body@
                == raw@.subrange(i + 4, raw@.len() as int),
        !has_delim(raw@) ==> r.headers@ == Seq::<u8>::empty() && r.body@ == Seq::<u8>::empty(),
{
    let n = raw.len();
    if n < 4 {
        proof {
            assert(forall|j: int| delim_at(raw@, j) ==> j + 4 <= raw@.len());
            assert(!has_delim(raw@));
        }
        return Response { headers: Vec::new(), body: Vec::new() };
    }
    let mut i: usize = 0;
    while i <= n - 4
        invariant
            n == raw@.len(),
            4 <= n,
            i <= n - 3,
            forall|j: int| 0 <= j < i ==> !delim_at(raw@, j),
        decreases n - i,
    {
        if raw[i] == 13u8 && raw[i + 1] == 10u8 && raw[i + 2] == 13u8 && raw[i + 3] == 10u8 {
            let headers = copy_range(raw, 0, i + 4);
            let body = copy_range(raw, i + 4, n);
            proof {
                assert(first_delim_at(raw@, i as int));
            }
            return Response { headers, body };
        }
        i = i + 1;
    }
    proof {
        assert(forall|j: int| delim_at(raw@, j) ==> 0 <= j && j + 4 <= raw@.len());
        assert(!has_delim(raw@));
    }
    Response { headers: Vec::new(), body: Vec::new() }
}

/// Whether `pat` occurs as a contiguous run in `s`.
pub fn contains_bytes(s: &Vec<u8>, pat: &Vec<u8>) -> (r: bool)
    ensures
        r == contains_seq(s@, pat@),
{
    let m = pat.len();
    let n = s.len();
    if m > n {
        proof {
            assert(forall|i: int|
                !(0 <= i && i + pat@.len() <= s@.len() && #[trigger] s@.subrange(
                    i,
                    i + pat@.len(),
                ) == pat@));
        }
        return false;
    }
    let mut i: usize = 0;
    while i <= n - m
        invariant
            m == pat@.len(),
            n == s@.len(),
            m <= n,
            i <= n - m + 1,
            forall|x: int| 0 <= x < i ==> #[trigger] s@.subrange(x, x + pat@.len()) != pat@,
        decreases n - m + 1 - i,
    {
        let mut k: usize = 0;
        let mut all_eq: bool = true;
        while k < m && all_eq
            invariant
                m == pat@.len(),
                n == s@.len(),
                i + m <= n,
                k <= m,
                all_eq ==> forall|y: int| 0 <= y < k ==> s@[i + y] == pat@[y],
                !all_eq ==> k < m && s@[i + k] != pat@[k as int],
            decreases m - k + (if all_eq { 1int } else { 0int }),
        {
            if s[i + k] != pat[k] {
                all_eq = false;
            } else {
                k = k + 1;
            }
        }
        if all_eq {
            proof {
                assert(s@.subrange(i as int, i + pat@.len()) =~= pat@);
            }
            return true;
        }
        proof {
            assert(s@.subrange(i as int, i + pat@.len())[k as int] != pat@[k as int]);
        }
        i = i + 1;
    }
    proof {
        assert(forall|x: int|
            0 <= x && x + pat@.len() <= s@.len() ==> #[trigger] s@.subrange(x, x + pat@.len())
                != pat@);
    }
    false
}

/// The invalid-range marker as bytes.
pub fn eof_marker_bytes() -> (r: Vec<u8>)
    ensures
        r@ == eof_marker(),
{
    let mut v: Vec<u8> = Vec::new();
    v.push(52u8);
    v.push(48u8);
    v.push(48u8);
    v.push(32u8);
    v.push(73u8);
    v.push(110u8);
    v.push(118u8);
    v.push(97u8);
    v.push(108u8);
    v.push(105u8);
    v.push(100u8);
    v.push(32u8);
    v.push(114u8);
    v.push(97u8);
    v.push(110u8);
    v.push(103u8);
    v.push(101u8);
    v.push(58u8);
    proof {
        assert(v@ =~= eof_marker());
    }
    v
}

/// Whether a parsed response signals end of stream.
pub fn response_signals_eof(r: &Response) -> (b: bool)
    ensures
        b == signals_eof(r.headers@, r.body@),
{
    if r.body.len() == 0 {
        return true;
    }
    let marker = eof_marker_bytes();
    contains_bytes(&r.headers, &marker)
}

} // verus!
