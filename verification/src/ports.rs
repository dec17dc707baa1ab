//! Validated inclusive port ranges and their textual `"<start>-<end>"` form.

use vstd::prelude::*;
use vstd::string::StringSliceAdditionalSpecFns;

verus! {

/// Why a port-range string was rejected.
#[derive(Debug, Clone, Copy, PartialEq, Eq, Structural)]
pub enum ParseError {
    /// The string does not split into exactly two parts at a single `-`.
    Format,
    /// A side is empty or holds a byte that is not a decimal digit.
    NotANumber,
    /// A side reads as a number outside `1..=65535`.
    OutOfRange,
    /// The start port is greater than the end port.
    Inverted,
}

/// An inclusive range of TCP ports; valid ranges satisfy
/// `1 <= start <= end <= 65535`.
#[derive(Debug, Clone, Copy, PartialEq, Eq, Structural)]
pub struct PortRange {
    pub start: u16,
    pub end: u16,
}

pub open spec fn is_digit(b: u8) -> bool {
    48 <= b <= 57
}

pub open spec fn all_digits(s: Seq<u8>) -> bool {
    forall|i: int| 0 <= i < s.len() ==> is_digit(#[trigger] s[i])
}

/// A side of the range text: a nonempty run of decimal digits.
pub open spec fn numeric(s: Seq<u8>) -> bool {
    s.len() > 0 && all_digits(s)
}

/// The base-10 value of a digit string.
pub open spec fn dec_value(s: Seq<u8>) -> int
    decreases s.len(),
{
    if s.len() == 0 {
        0
    } else {
        dec_value(s.drop_last()) * 10 + (s.last() - 48)
    }
}

/// `i` is the position of the one and only `-` (byte 45) in `s`.
pub open spec fn sep_at(s: Seq<u8>, i: int) -> bool {
    &&& 0 <= i < s.len()
    &&& s[i] == 45
    &&& forall|j: int| 0 <= j < s.len() && j != i ==> s[j] != 45
}

pub open spec fn has_single_sep(s: Seq<u8>) -> bool {
    exists|i: int| sep_at(s, i)
}

pub open spec fn sep_index(s: Seq<u8>) -> int {
    choose|i: int| sep_at(s, i)
}

pub open spec fn left_of_sep(s: Seq<u8>) -> Seq<u8> {
    s.subrange(0, sep_index(s))
}

pub open spec fn right_of_sep(s: Seq<u8>) -> Seq<u8> {
    s.subrange(sep_index(s) + 1, s.len() as int)
}

pub open spec fn port_in_bounds(v: int) -> bool {
    1 <= v <= 65535
}

/// What parsing a `"<start>-<end>"` byte string returns, for every input.
pub open spec fn spec_parse(s: Seq<u8>) -> Result<PortRange, ParseError> {
    if !has_single_sep(s) {
        Err(ParseError::Format)
    } else {
        let l = left_of_sep(s);
        let r = right_of_sep(s);
        if !numeric(l) || !numeric(r) {
            Err(ParseError::NotANumber)
        } else if !port_in_bounds(dec_value(l)) || !port_in_bounds(dec_value(r)) {
            Err(ParseError::OutOfRange)
        } else if dec_value(l) > dec_value(r) {
            Err(ParseError::Inverted)
        } else {
            Ok(PortRange { start: dec_value(l) as u16, end: dec_value(r) as u16 })
        }
    }
}

pub proof fn lemma_sep_unique(s: Seq<u8>, i: int, j: int)
    requires
        sep_at(s, i),
        sep_at(s, j),
    ensures
        i == j,
{
    if i != j {
        assert(s[j] != 45);
    }
}

pub proof fn lemma_dec_value_nonneg(s: Seq<u8>)
    requires
        all_digits(s),
    ensures
        dec_value(s) >= 0,
    decreases s.len(),
{
    if s.len() > 0 {
        assert(all_digits(s.drop_last()));
        lemma_dec_value_nonneg(s.drop_last());
        assert(is_digit(s[s.len() - 1]));
    }
}

/// Reading one more digit never shrinks the value.
pub proof fn lemma_dec_value_prefix_le(s: Seq<u8>, i: int)
    requires
        all_digits(s),
        0 <= i <= s.len(),
    ensures
        dec_value(s.subrange(0, i)) <= dec_value(s),
    decreases s.len() - i,
{
    if i == s.len() {
        assert(s.subrange(0, i) =~= s);
    } else {
        let p = s.subrange(0, i);
        let q = s.subrange(0, i + 1);
        assert(q.drop_last() =~= p);
        assert(all_digits(p));
        lemma_dec_value_nonneg(p);
        assert(is_digit(s[i]));
        assert(dec_value(q) == dec_value(p) * 10 + (s[i] - 48));
        assert(dec_value(p) * 10 >= dec_value(p));
        lemma_dec_value_prefix_le(s, i + 1);
    }
}

/// Whether the bytes `b[lo..hi]` form a nonempty run of decimal digits.
fn scan_digits(b: &[u8], lo: usize, hi: usize) -> (ok: bool)
    requires
        lo <= hi <= b@.len(),
    ensures
        ok == numeric(b@.subrange(lo as int, hi as int)),
{
    let ghost sub = b@.subrange(lo as int, hi as int);
    if lo == hi {
        return false;
    }
    let mut i: usize = lo;
    while i < hi
        invariant
            lo <= i <= hi <= b@.len(),
            sub == b@.subrange(lo as int, hi as int),
            forall|j: int| lo <= j < i ==> is_digit(#[trigger] b@[j]),
        decreases hi - i,
    {
        let c = b[i];
        if c < 48 || c > 57 {
            assert(!is_digit(sub[i - lo]));
            return false;
        }
        i += 1;
    }
    assert forall|j: int| 0 <= j < sub.len() implies is_digit(#[trigger] sub[j]) by {
        assert(sub[j] == b@[lo + j]);
    }
    true
}

/// The value of the digit run `b[lo..hi]`, or `None` when it exceeds 65535.
fn digits_value(b: &[u8], lo: usize, hi: usize) -> (v: Option<u16>)
    requires
        lo <= hi <= b@.len(),
        numeric(b@.subrange(lo as int, hi as int)),
    ensures
        ({
            let d = dec_value(b@.subrange(lo as int, hi as int));
            if d <= 65535 {
                v == Some(d as u16)
            } else {
                v is None
            }
        }),
{
    let ghost sub = b@.subrange(lo as int, hi as int);
    let mut acc: u32 = 0;
    let mut i: usize = lo;
    while i < hi
        invariant
            lo <= i <= hi <= b@.len(),
            sub == b@.subrange(lo as int, hi as int),
            numeric(sub),
            acc <= 65535,
            acc == dec_value(sub.subrange(0, i - lo)),
        decreases hi - i,
    {
        assert(is_digit(sub[i - lo]));
        assert(b@[i as int] == sub[i - lo]);
        let d = b[i];
        let next: u32 = acc * 10 + (d - 48) as u32;
        proof {
            let p = sub.subrange(0, i - lo);
            let q = sub.subrange(0, i + 1 - lo);
            assert(q.drop_last() =~= p);
            assert(dec_value(q) == dec_value(p) * 10 + (sub[i - lo] - 48));
        }
        if next > 65535 {
            proof {
                lemma_dec_value_prefix_le(sub, i + 1 - lo);
            }
            return None;
        }
        acc = next;
        i += 1;
    }
    assert(sub.subrange(0, hi - lo) =~= sub);
    Some(acc as u16)
}

impl PortRange {
    /// A constructed range is valid: `1 <= start <= end` (and `end <= 65535`
    /// holds because the field is 16 bits wide).
    pub open spec fn wf(self) -> bool {
        1 <= self.start <= self.end
    }

    /// The ascending sequence of ports the range covers.
    pub open spec fn spec_ports(self) -> Seq<u16> {
        if self.start <= self.end {
            Seq::new((self.end - self.start + 1) as nat, |i: int| (self.start + i) as u16)
        } else {
            Seq::empty()
        }
    }

    /// Parse `"<start>-<end>"` from raw bytes.
    pub fn parse_bytes(b: &[u8]) -> (r: Result<PortRange, ParseError>)
        ensures
            r == spec_parse(b@),
            r is Ok ==> r->Ok_0.wf(),
    {
        let n = b.len();

        // Find the first separator.
        let mut sep: usize = 0;
        let mut found = false;
        let mut i: usize = 0;
        while i < n
            invariant
                0 <= i <= n == b@.len(),
                !found ==> forall|j: int| 0 <= j < i ==> b@[j] != 45,
                found ==> sep < i && b@[sep as int] == 45
                    && (forall|j: int| 0 <= j < sep ==> b@[j] != 45),
            decreases n - i,
        {
            if !found && b[i] == 45 {
                sep = i;
                found = true;
            }
            i += 1;
        }
        if !found {
            proof {
                assert forall|k: int| !sep_at(b@, k) by {
                    if 0 <= k < b@.len() {
                        assert(b@[k] != 45);
                    }
                }
            }
            return Err(ParseError::Format);
        }

        // Reject a second separator.
        let mut j: usize = sep + 1;
        while j < n
            invariant
                sep < j <= n == b@.len(),
                b@[sep as int] == 45,
                forall|k: int| sep < k < j ==> b@[k] != 45,
            decreases n - j,
        {
            if b[j] == 45 {
                proof {
                    assert forall|k: int| !sep_at(b@, k) by {
                        if sep_at(b@, k) {
                            if k == sep {
                                assert(b@[j as int] != 45);
                            } else {
                                assert(b@[sep as int] != 45);
                            }
                        }
                    }
                }
                return Err(ParseError::Format);
            }
            j += 1;
        }
        proof {
            assert(sep_at(b@, sep as int));
            assert(has_single_sep(b@));
            lemma_sep_unique(b@, sep_index(b@), sep as int);
        }

        let l_ok = scan_digits(b, 0, sep);
        let r_ok = scan_digits(b, sep + 1, n);
        if !l_ok || !r_ok {
            return Err(ParseError::NotANumber);
        }
        let lv = digits_value(b, 0, sep);
        let rv = digits_value(b, sep + 1, n);
        proof {
            lemma_dec_value_nonneg(left_of_sep(b@));
            lemma_dec_value_nonneg(right_of_sep(b@));
        }
        match (lv, rv) {
            (Some(s0), Some(e0)) => {
                if s0 == 0 || e0 == 0 {
                    Err(ParseError::OutOfRange)
                } else if s0 > e0 {
                    Err(ParseError::Inverted)
                } else {
                    Ok(PortRange { start: s0, end: e0 })
                }
            },
            _ => Err(ParseError::OutOfRange),
        }
    }

    /// Parse `"<start>-<end>"`; the contract speaks of the string's UTF-8 bytes.
    pub fn parse(s: &str) -> (r: Result<PortRange, ParseError>)
        ensures
            r == spec_parse(s.spec_bytes()),
            r is Ok ==> r->Ok_0.wf(),
    {
        PortRange::parse_bytes(s.as_bytes())
    }

    /// Expand the range into the ascending vector of ports to scan.
    pub fn to_vec(self) -> (r: Vec<u16>)
        ensures
            r@ == self.spec_ports(),
    {
        let mut v: Vec<u16> = Vec::new();
        if self.start > self.end {
            assert(v@ =~= self.spec_ports());
            return v;
        }
        let mut p: u32 = self.start as u32;
        while p <= self.end as u32
            invariant
                self.start <= self.end,
                self.start <= p <= self.end + 1,
                v@.len() == p - self.start,
                forall|i: int| 0 <= i < v@.len() ==> v@[i] == (self.start + i) as u16,
            decreases self.end + 1 - p,
        {
            v.push(p as u16);
            p += 1;
        }
        assert(v@ =~= self.spec_ports());
        v
    }
}

/// Round-trip law: every input accepted by the parser yields a valid range,
/// and the range expands to a sequence of length `end - start + 1` that is
/// strictly ascending, starts at `start` and ends at `end`.
pub proof fn lemma_parse_expand_round_trip(s: Seq<u8>)
    requires
        spec_parse(s) is Ok,
    ensures
        ({
            let pr = spec_parse(s)->Ok_0;
            &&& pr.wf()
            &&& pr.start == dec_value(left_of_sep(s))
            &&& pr.end == dec_value(right_of_sep(s))
            &&& pr.spec_ports().len() == pr.end - pr.start + 1
            &&& pr.spec_ports().first() == pr.start
            &&& pr.spec_ports().last() == pr.end
            &&& forall|i: int, j: int|
                0 <= i < j < pr.spec_ports().len() ==> pr.spec_ports()[i] < pr.spec_ports()[j]
        }),
{
    let pr = spec_parse(s)->Ok_0;
    assert(pr.spec_ports().len() == pr.end - pr.start + 1);
    assert forall|i: int, j: int|
        0 <= i < j < pr.spec_ports().len() implies pr.spec_ports()[i] < pr.spec_ports()[j] by {
        assert(pr.spec_ports()[i] == (pr.start + i) as u16);
        assert(pr.spec_ports()[j] == (pr.start + j) as u16);
    }
}

impl ParseError {
    /// The reason for the rejection, as the scanner reports it.
    pub open spec fn spec_message(self) -> Seq<char> {
        match self {
            ParseError::Format => "ports must be in format start-end (example: 1-1000)"@,
            ParseError::NotANumber => "port must be a number"@,
            ParseError::OutOfRange => "port range must be between 1 and 65535"@,
            ParseError::Inverted => "start port must be <= end port"@,
        }
    }

    /// A human-readable account of the rejection.
    pub fn message(&self) -> (m: &'static str)
        ensures
            m@ == self.spec_message(),
    {
        match self {
            ParseError::Format => "ports must be in format start-end (example: 1-1000)",
            ParseError::NotANumber => "port must be a number",
            ParseError::OutOfRange => "port range must be between 1 and 65535",
            ParseError::Inverted => "start port must be <= end port",
        }
    }
}

impl core::str::FromStr for PortRange {
    type Err = String;

    fn from_str(s: &str) -> Result<Self, Self::Err> {
        match PortRange::parse(s) {
            Ok(r) => Ok(r),
            Err(e) => Err(e.message().to_owned()),
        }
    }
}

} // verus!
