//! Kernel version strings: parsing a release string such as `5.10.0-1-amd64`
//! into its `(major, minor)` pair, and the lexicographic comparison against
//! the minimum version that supports the ring facility.

use vstd::prelude::*;
use vstd::string::StringSliceAdditionalSpecFns;

verus! {

/// Minimum Linux kernel major version with io_uring support.
pub const MIN_KERNEL_MAJOR: u32 = 5;
/// Minimum Linux kernel minor version with io_uring support.
pub const MIN_KERNEL_MINOR: u32 = 6;

/// The byte `'.'`, separating version fields.
pub const BYTE_DOT: u8 = 46;
/// The byte `'+'`, an optional sign accepted in front of a decimal number.
pub const BYTE_PLUS: u8 = 43;

/// ASCII whitespace as trimmed from the ends of a release string: space,
/// tab, line feed, vertical tab, form feed, carriage return.
pub open spec fn is_ws(b: u8) -> bool {
    b == 32 || b == 9 || b == 10 || b == 11 || b == 12 || b == 13
}

/// ASCII decimal digit.
pub open spec fn is_digit(b: u8) -> bool {
    48 <= b && b <= 57
}

/// Numeric value of a single digit byte.
pub open spec fn digit_val(b: u8) -> nat {
    (b - 48) as nat
}

pub open spec fn all_digits(s: Seq<u8>) -> bool {
    forall|i: int| 0 <= i < s.len() ==> is_digit(s[i])
}

/// Value of a digit string, most significant digit first.
pub open spec fn digits_value(s: Seq<u8>) -> nat
    decreases s.len(),
{
    if s.len() == 0 {
        0
    } else {
        digits_value(s.drop_last()) * 10 + digit_val(s.last())
    }
}

/// The digit part of a decimal number: everything after one optional
/// leading `'+'`.
pub open spec fn u32_digits(s: Seq<u8>) -> Seq<u8> {
    if s.len() > 0 && s[0] == BYTE_PLUS {
        s.drop_first()
    } else {
        s
    }
}

/// Exactly the strings that `str::parse::<u32>` accepts: an optional
/// leading `'+'`, then at least one digit, with a value in `u32` range.
pub open spec fn parses_as_u32(s: Seq<u8>) -> bool {
    &&& u32_digits(s).len() > 0
    &&& all_digits(u32_digits(s))
    &&& digits_value(u32_digits(s)) <= u32::MAX
}

pub open spec fn u32_value(s: Seq<u8>) -> nat {
    digits_value(u32_digits(s))
}

/// The string with its leading ASCII whitespace removed.
pub open spec fn trim_start_spec(s: Seq<u8>) -> Seq<u8>
    decreases s.len(),
{
    if s.len() > 0 && is_ws(s[0]) {
        trim_start_spec(s.drop_first())
    } else {
        s
    }
}

/// The string with its trailing ASCII whitespace removed.
pub open spec fn trim_end_spec(s: Seq<u8>) -> Seq<u8>
    decreases s.len(),
{
    if s.len() > 0 && is_ws(s.last()) {
        trim_end_spec(s.drop_last())
    } else {
        s
    }
}

pub open spec fn trim_spec(s: Seq<u8>) -> Seq<u8> {
    trim_end_spec(trim_start_spec(s))
}

/// The text before the first occurrence of `b`, or the whole string if `b`
/// does not occur: what `split` yields first.
pub open spec fn before_byte(s: Seq<u8>, b: u8) -> Seq<u8>
    decreases s.len(),
{
    if s.len() == 0 {
        seq![]
    } else if s[0] == b {
        seq![]
    } else {
        seq![s[0]] + before_byte(s.drop_first(), b)
    }
}

/// The text after the first occurrence of `b`, or nothing if `b` does not
/// occur: what remains for `split` after its first yield.
pub open spec fn after_byte(s: Seq<u8>, b: u8) -> Option<Seq<u8>>
    decreases s.len(),
{
    if s.len() == 0 {
        Option::None
    } else if s[0] == b {
        Option::Some(s.drop_first())
    } else {
        after_byte(s.drop_first(), b)
    }
}

/// The longest run of digits the string starts with.
pub open spec fn digit_prefix(s: Seq<u8>) -> Seq<u8>
    decreases s.len(),
{
    if s.len() > 0 && is_digit(s[0]) {
        seq![s[0]] + digit_prefix(s.drop_first())
    } else {
        seq![]
    }
}

/// What parsing a kernel release string yields: after trimming ASCII
/// whitespace, the text before the first `'.'` is the major field; the
/// minor field is the run of digits that follows the first `'.'`, taken up
/// to the first non-digit boundary — a `'-'`-led suffix, a `'.'` before
/// the patch field, or any other text alike. The major field must be a
/// decimal number and the minor a non-empty digit run, both in `u32`
/// range; a missing `'.'` or a failing field yields nothing.
pub open spec fn parse_kernel_version_spec(raw: Seq<u8>) -> Option<(u32, u32)> {
    let t = trim_spec(raw);
    match after_byte(t, BYTE_DOT) {
        Option::None => Option::None,
        Option::Some(rest) => {
            let major_s = before_byte(t, BYTE_DOT);
            let minor_s = digit_prefix(rest);
            if parses_as_u32(major_s) && parses_as_u32(minor_s) {
                Option::Some(((u32_value(major_s) as u32), (u32_value(minor_s) as u32)))
            } else {
                Option::None
            }
        },
    }
}

pub proof fn lemma_trim_start_at(s: Seq<u8>, i: int)
    requires
        0 <= i <= s.len(),
        forall|j: int| 0 <= j < i ==> is_ws(s[j]),
        i == s.len() || !is_ws(s[i]),
    ensures
        trim_start_spec(s) == s.subrange(i, s.len() as int),
    decreases i,
{
    if i == 0 {
        assert(trim_start_spec(s) == s);
        assert(s.subrange(0, s.len() as int) =~= s);
    } else {
        assert(is_ws(s[0]));
        lemma_trim_start_at(s.drop_first(), i - 1);
        assert(s.drop_first().subrange(i - 1, s.drop_first().len() as int) =~= s.subrange(
            i,
            s.len() as int,
        ));
    }
}

pub proof fn lemma_trim_end_at(s: Seq<u8>, e: int)
    requires
        0 <= e <= s.len(),
        forall|j: int| e <= j < s.len() ==> is_ws(s[j]),
        e == 0 || !is_ws(s[e - 1]),
    ensures
        trim_end_spec(s) == s.subrange(0, e),
    decreases s.len(),
{
    if e == s.len() {
        if s.len() == 0 {
            assert(s.subrange(0, 0) =~= s);
        } else {
            assert(!is_ws(s.last()));
            assert(s.subrange(0, s.len() as int) =~= s);
        }
    } else {
        assert(is_ws(s.last()));
        lemma_trim_end_at(s.drop_last(), e);
        assert(s.drop_last().subrange(0, e) =~= s.subrange(0, e));
    }
}

pub proof fn lemma_before_after_at(s: Seq<u8>, b: u8, i: int)
    requires
        0 <= i <= s.len(),
        forall|j: int| 0 <= j < i ==> s[j] != b,
        i == s.len() || s[i] == b,
    ensures
        i == s.len() ==> before_byte(s, b) == s && after_byte(s, b) is None,
        i < s.len() ==> before_byte(s, b) == s.subrange(0, i) && after_byte(s, b) == Option::Some(
            s.subrange(i + 1, s.len() as int),
        ),
    decreases i,
{
    if i == 0 {
        if s.len() == 0 {
            assert(before_byte(s, b) =~= s);
        } else if s[0] == b {
            assert(before_byte(s, b) =~= s.subrange(0, 0));
            assert(s.drop_first() =~= s.subrange(1, s.len() as int));
        } else {
            assert(s.len() == 0);
        }
    } else {
        assert(s[0] != b);
        lemma_before_after_at(s.drop_first(), b, i - 1);
        if i == s.len() {
            assert(before_byte(s, b) =~= seq![s[0]] + s.drop_first());
            assert(seq![s[0]] + s.drop_first() =~= s);
        } else {
            assert(seq![s[0]] + s.drop_first().subrange(0, i - 1) =~= s.subrange(0, i));
            assert(s.drop_first().subrange(i, s.drop_first().len() as int) =~= s.subrange(
                i + 1,
                s.len() as int,
            ));
        }
    }
}

pub proof fn lemma_digit_prefix_at(s: Seq<u8>, k: int)
    requires
        0 <= k <= s.len(),
        forall|j: int| 0 <= j < k ==> is_digit(s[j]),
        k == s.len() || !is_digit(s[k]),
    ensures
        digit_prefix(s) == s.subrange(0, k),
    decreases k,
{
    if k == 0 {
        assert(digit_prefix(s) =~= s.subrange(0, 0));
    } else {
        assert(is_digit(s[0]));
        lemma_digit_prefix_at(s.drop_first(), k - 1);
        assert(seq![s[0]] + s.drop_first().subrange(0, k - 1) =~= s.subrange(0, k));
    }
}

/// A digit string is worth at least any of its prefixes.
pub proof fn lemma_digits_value_take_le(s: Seq<u8>, m: int)
    requires
        0 <= m <= s.len(),
    ensures
        digits_value(s.take(m)) <= digits_value(s),
    decreases s.len(),
{
    if m == s.len() {
        assert(s.take(m) =~= s);
    } else {
        assert(s.take(m) =~= s.drop_last().take(m));
        lemma_digits_value_take_le(s.drop_last(), m);
        assert(digits_value(s.drop_last()) * 10 >= digits_value(s.drop_last()) * 1);
    }
}

/// Splitting at a byte that does not occur in a prefix steps over that
/// prefix whole.
pub proof fn lemma_split_absent(a: Seq<u8>, b: Seq<u8>, c: u8)
    requires
        forall|i: int| 0 <= i < a.len() ==> a[i] != c,
    ensures
        before_byte(a + b, c) == a + before_byte(b, c),
        after_byte(a + b, c) == after_byte(b, c),
    decreases a.len(),
{
    if a.len() == 0 {
        assert(a + b =~= b);
        assert(a + before_byte(b, c) =~= before_byte(b, c));
    } else {
        assert((a + b)[0] == a[0]);
        assert((a + b).drop_first() =~= a.drop_first() + b);
        lemma_split_absent(a.drop_first(), b, c);
        assert(seq![(a + b)[0]] + (a.drop_first() + before_byte(b, c)) =~= a + before_byte(b, c));
    }
}

/// Every well-formed dotted version string parses to its own fields: for
/// any digit strings in range and any non-digit-led suffix — a `.patch`,
/// a `-suffix`, both, or any other trailing text — parsing
/// `major.minor<tail>` extracts `(major, minor)` and ignores the rest.
pub proof fn lemma_parse_dotted_form(major_s: Seq<u8>, minor_s: Seq<u8>, tail: Seq<u8>)
    requires
        major_s.len() > 0,
        all_digits(major_s),
        digits_value(major_s) <= u32::MAX,
        minor_s.len() > 0,
        all_digits(minor_s),
        digits_value(minor_s) <= u32::MAX,
        tail.len() == 0 || !is_digit(tail[0]),
        forall|i: int| 0 <= i < tail.len() ==> !is_ws(tail[i]),
    ensures
        parse_kernel_version_spec(major_s + seq![BYTE_DOT] + minor_s + tail) == Option::Some(
            ((digits_value(major_s) as u32), (digits_value(minor_s) as u32)),
        ),
{
    let rest0 = minor_s + tail;
    let s = major_s + seq![BYTE_DOT] + minor_s + tail;
    assert(s =~= major_s + (seq![BYTE_DOT] + rest0));

    assert(s[0] == major_s[0]);
    assert(!is_ws(s[0]));
    assert(trim_start_spec(s) == s);
    if tail.len() == 0 {
        assert(s.last() == minor_s.last());
    } else {
        assert(s.last() == tail.last());
    }
    assert(!is_ws(s.last()));
    assert(trim_end_spec(s) == s);
    assert(trim_spec(s) == s);

    lemma_split_absent(major_s, seq![BYTE_DOT] + rest0, BYTE_DOT);
    assert((seq![BYTE_DOT] + rest0)[0] == BYTE_DOT);
    assert(before_byte(seq![BYTE_DOT] + rest0, BYTE_DOT) =~= Seq::<u8>::empty());
    assert(before_byte(s, BYTE_DOT) =~= major_s);
    assert((seq![BYTE_DOT] + rest0).drop_first() =~= rest0);
    assert(after_byte(s, BYTE_DOT) == Option::Some(rest0));

    lemma_digit_prefix_at(rest0, minor_s.len() as int);
    assert(rest0.subrange(0, minor_s.len() as int) =~= minor_s);
    assert(digit_prefix(rest0) == minor_s);

    assert(u32_digits(major_s) == major_s);
    assert(u32_digits(minor_s) == minor_s);
    assert(parses_as_u32(major_s));
    assert(parses_as_u32(minor_s));
}

fn is_ws_byte(b: u8) -> (r: bool)
    ensures
        r == is_ws(b),
{
    b == 32 || b == 9 || b == 10 || b == 11 || b == 12 || b == 13
}

/// Decimal parsing of `bytes[lo..hi]`, exactly as `str::parse::<u32>` does
/// it: an optional leading `'+'`, then digits, rejected on any other byte,
/// on an empty digit string, and on a value over `u32::MAX`.
fn parse_u32_range(bytes: &[u8], lo: usize, hi: usize) -> (r: Option<u32>)
    requires
        lo <= hi <= bytes@.len(),
    ensures
        match r {
            Option::Some(v) => parses_as_u32(bytes@.subrange(lo as int, hi as int)) && v as nat
                == u32_value(bytes@.subrange(lo as int, hi as int)),
            Option::None => !parses_as_u32(bytes@.subrange(lo as int, hi as int)),
        },
{
    let ghost sub = bytes@.subrange(lo as int, hi as int);
    let mut i: usize = lo;
    if i < hi && bytes[i] == BYTE_PLUS {
        i = i + 1;
    }
    let ghost digs = bytes@.subrange(i as int, hi as int);
    proof {
        assert(u32_digits(sub) =~= digs);
    }
    if i == hi {
        return Option::None;
    }
    let mut val: u32 = 0;
    let mut j: usize = i;
    while j < hi
        invariant
            lo <= i <= j <= hi <= bytes@.len(),
            digs == bytes@.subrange(i as int, hi as int),
            u32_digits(sub) == digs,
            sub == bytes@.subrange(lo as int, hi as int),
            all_digits(digs.take(j - i)),
            val as nat == digits_value(digs.take(j - i)),
        decreases hi - j,
    {
        let b = bytes[j];
        proof {
            assert(digs[j - i] == bytes@[j as int]);
            assert(digs.take(j + 1 - i).drop_last() =~= digs.take(j - i));
            assert(digs.take(j + 1 - i).last() == digs[j - i]);
        }
        if !(48 <= b && b <= 57) {
            assert(!is_digit(digs[j - i]));
            return Option::None;
        }
        let d: u32 = (b - 48) as u32;
        let q: u32 = (u32::MAX - d) / 10;
        if val > q {
            proof {
                vstd::arithmetic::div_mod::lemma_fundamental_div_mod((u32::MAX - d) as int, 10);
                assert(val * 10 >= (q + 1) * 10);
                assert(val as nat * 10 + d as nat > u32::MAX as nat);
                assert(digits_value(digs.take(j + 1 - i)) > u32::MAX);
                lemma_digits_value_take_le(digs, j + 1 - i);
            }
            return Option::None;
        }
        proof {
            vstd::arithmetic::div_mod::lemma_fundamental_div_mod((u32::MAX - d) as int, 10);
            assert(val * 10 <= q * 10);
            assert(val * 10 + d <= u32::MAX);
        }
        val = val * 10 + d;
        j = j + 1;
    }
    proof {
        assert(digs.take(j - i) =~= digs);
    }
    Option::Some(val)
}

/// Parses a kernel release string such as `5.10.0-1-amd64` or `6.1.0` into
/// its `(major, minor)` pair. The minor field is the digit run after the
/// first `'.'`, up to the first non-digit boundary, so the patch field and
/// any free-text suffix attached to the minor field are ignored;
/// surrounding whitespace is trimmed; a string without a `'.'`, or whose
/// major or minor field is not a decimal number in range, yields nothing.
pub fn parse_kernel_version(version_str: &str) -> (r: Option<(u32, u32)>)
    ensures
        r == parse_kernel_version_spec(version_str.spec_bytes()),
{
    let bytes: &[u8] = version_str.as_bytes();
    let n: usize = bytes.len();
    let ghost raw = version_str.spec_bytes();

    let mut start: usize = 0;
    while start < n && is_ws_byte(bytes[start])
        invariant
            0 <= start <= n == raw.len(),
            bytes@ == raw,
            forall|k: int| 0 <= k < start ==> is_ws(raw[k]),
        decreases n - start,
    {
        start = start + 1;
    }
    let mut end: usize = n;
    while end > start && is_ws_byte(bytes[end - 1])
        invariant
            start <= end <= n == raw.len(),
            bytes@ == raw,
            forall|k: int| 0 <= k < start ==> is_ws(raw[k]),
            start == n || !is_ws(raw[start as int]),
            forall|k: int| end <= k < n ==> is_ws(raw[k]),
        decreases end,
    {
        end = end - 1;
    }
    let ghost t = raw.subrange(start as int, end as int);
    proof {
        lemma_trim_start_at(raw, start as int);
        let u = raw.subrange(start as int, n as int);
        lemma_trim_end_at(u, end - start);
        assert(u.subrange(0, end - start) =~= t);
    }

    let mut p: usize = start;
    while p < end && bytes[p] != BYTE_DOT
        invariant
            start <= p <= end <= n == raw.len(),
            bytes@ == raw,
            forall|k: int| start <= k < p ==> raw[k] != BYTE_DOT,
        decreases end - p,
    {
        p = p + 1;
    }
    proof {
        lemma_before_after_at(t, BYTE_DOT, p - start);
    }
    if p == end {
        return Option::None;
    }
    let ghost rest = t.subrange(p - start + 1, t.len() as int);
    proof {
        assert(t.subrange(0, p - start) =~= raw.subrange(start as int, p as int));
        assert(rest =~= raw.subrange(p + 1, end as int));
    }
    let major = parse_u32_range(bytes, start, p);

    let mut w: usize = p + 1;
    while w < end && 48 <= bytes[w] && bytes[w] <= 57
        invariant
            p < w <= end <= n == raw.len(),
            bytes@ == raw,
            forall|k: int| p < k < w ==> is_digit(raw[k]),
        decreases end - w,
    {
        w = w + 1;
    }
    proof {
        lemma_digit_prefix_at(rest, w - (p + 1));
        assert(digit_prefix(rest) =~= raw.subrange(p + 1, w as int));
    }
    let minor = parse_u32_range(bytes, p + 1, w);

    match (major, minor) {
        (Option::Some(mj), Option::Some(mn)) => Option::Some((mj, mn)),
        _ => Option::None,
    }
}

/// Whether a kernel release string names a version at least the minimum
/// that supports the ring facility: unparseable strings never qualify.
pub open spec fn version_ok_spec(raw: Seq<u8>) -> bool {
    match parse_kernel_version_spec(raw) {
        Option::Some(v) => spec_version_ge(v.0, v.1, MIN_KERNEL_MAJOR, MIN_KERNEL_MINOR),
        Option::None => false,
    }
}

/// Parses a kernel release string and compares it against the minimum
/// version with io_uring support; a string that does not parse fails the
/// check (fail closed, never fail open).
pub fn check_kernel_version(version_str: &str) -> (r: bool)
    ensures
        r == version_ok_spec(version_str.spec_bytes()),
{
    match parse_kernel_version(version_str) {
        Option::Some((mj, mn)) => kernel_version_at_least(
            mj,
            mn,
            MIN_KERNEL_MAJOR,
            MIN_KERNEL_MINOR,
        ),
        Option::None => false,
    }
}

/// `(major, minor) >= (req_major, req_minor)` in lexicographic order.
pub open spec fn spec_version_ge(major: u32, minor: u32, req_major: u32, req_minor: u32) -> bool {
    major > req_major || (major == req_major && minor >= req_minor)
}

/// Lexicographic comparison of a parsed kernel version against a required
/// minimum: the major field decides, and the minor field breaks ties.
pub fn kernel_version_at_least(major: u32, minor: u32, req_major: u32, req_minor: u32) -> (r: bool)
    ensures
        r == spec_version_ge(major, minor, req_major, req_minor),
{
    major > req_major || (major == req_major && minor >= req_minor)
}

/// The lexicographic order on version pairs is reflexive.
pub proof fn lemma_version_ge_refl(major: u32, minor: u32)
    ensures
        spec_version_ge(major, minor, major, minor),
{
}

/// The lexicographic order on version pairs is transitive, so the comparison
/// is monotonic: any version at least `(b0, b1)` is also at least any
/// requirement that `(b0, b1)` itself meets.
pub proof fn lemma_version_ge_trans(
    a0: u32,
    a1: u32,
    b0: u32,
    b1: u32,
    c0: u32,
    c1: u32,
)
    requires
        spec_version_ge(a0, a1, b0, b1),
        spec_version_ge(b0, b1, c0, c1),
    ensures
        spec_version_ge(a0, a1, c0, c1),
{
}

/// The lexicographic order on version pairs is total: of two versions, one
/// is at least the other.
pub proof fn lemma_version_ge_total(a0: u32, a1: u32, b0: u32, b1: u32)
    ensures
        spec_version_ge(a0, a1, b0, b1) || spec_version_ge(b0, b1, a0, a1),
{
}

} // verus!
