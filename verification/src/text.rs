//! Character-level text handling shared by the colour and curve parsers:
//! trimming, splitting on a separator, ASCII case folding and parsing
//! unsigned integers the way `from_str_radix` does.
use vstd::prelude::*;
use vstd::string::*;

verus! {

/// The Unicode `White_Space` property (what `char::is_whitespace` and
/// `str::trim` go by): U+0009..=U+000D, space, U+0085, U+00A0, U+1680,
/// U+2000..=U+200A, U+2028, U+2029, U+202F, U+205F and U+3000.
pub open spec fn unicode_white_space(c: char) -> bool {
    let u = c as u32;
    ||| 9 <= u && u <= 13
    ||| u == 0x20
    ||| u == 0x85
    ||| u == 0xA0
    ||| u == 0x1680
    ||| 0x2000 <= u && u <= 0x200A
    ||| u == 0x2028
    ||| u == 0x2029
    ||| u == 0x202F
    ||| u == 0x205F
    ||| u == 0x3000
}

/// Whether `c` has the Unicode `White_Space` property.
pub fn is_white_space(c: char) -> (b: bool)
    ensures
        b == unicode_white_space(c),
{
    let u = c as u32;
    (9 <= u && u <= 13) || u == 0x20 || u == 0x85 || u == 0xA0 || u == 0x1680 || (0x2000 <= u
        && u <= 0x200A) || u == 0x2028 || u == 0x2029 || u == 0x202F || u == 0x205F || u == 0x3000
}

/// `s` without leading whitespace.
pub open spec fn trim_start(s: Seq<char>) -> Seq<char>
    decreases s.len(),
{
    if s.len() > 0 && unicode_white_space(s[0]) {
        trim_start(s.drop_first())
    } else {
        s
    }
}

/// `s` without trailing whitespace.
pub open spec fn trim_end(s: Seq<char>) -> Seq<char>
    decreases s.len(),
{
    if s.len() > 0 && unicode_white_space(s.last()) {
        trim_end(s.drop_last())
    } else {
        s
    }
}

/// `s` without leading and trailing whitespace (what `str::trim` returns).
pub open spec fn trim(s: Seq<char>) -> Seq<char> {
    trim_end(trim_start(s))
}

/// The pieces of `s` between occurrences of `sep` (what `str::split` with a
/// character pattern yields): one more piece than there are separators.
pub open spec fn split(s: Seq<char>, sep: char) -> Seq<Seq<char>>
    decreases s.len(),
{
    if s.len() == 0 {
        seq![Seq::empty()]
    } else {
        let init = split(s.drop_last(), sep);
        if s.last() == sep {
            init.push(Seq::empty())
        } else {
            init.update(init.len() - 1, init.last().push(s.last()))
        }
    }
}

/// The text that a list of index ranges selects from `s`.
pub open spec fn ranges_text(s: Seq<char>, r: Seq<(usize, usize)>) -> Seq<Seq<char>> {
    r.map_values(|p: (usize, usize)| s.subrange(p.0 as int, p.1 as int))
}

/// ASCII upper-case letters folded to lower case, everything else kept.
pub open spec fn ascii_lower(c: char) -> char {
    if 65 <= c as u32 && c as u32 <= 90 {
        ((c as u32) + 32) as char
    } else {
        c
    }
}

/// What `str::to_ascii_lowercase` returns.
pub open spec fn ascii_lowercase(s: Seq<char>) -> Seq<char> {
    s.map_values(|c: char| ascii_lower(c))
}

/// Why a text is not an unsigned integer.
#[derive(Clone, Copy, Debug, PartialEq, Eq, Structural)]
pub enum IntErrorKind {
    /// The text is empty.
    Empty,
    /// The text holds a character that is not a digit of the radix (a lone
    /// sign counts as one).
    InvalidDigit,
    /// The number does not fit in the target type.
    PosOverflow,
}

/// The value of `c` as a digit in `radix`, if it is one (`char::to_digit`).
pub open spec fn digit_value(c: char, radix: nat) -> Option<nat> {
    let u = c as u32;
    let d: int = if 48 <= u && u <= 57 {
        u - 48
    } else if 97 <= u && u <= 122 {
        u - 97 + 10
    } else if 65 <= u && u <= 90 {
        u - 65 + 10
    } else {
        36
    };
    if d < radix {
        Some(d as nat)
    } else {
        None
    }
}

/// Reads the digits `d` after the value `acc` already read, failing on the
/// first character that is not a digit or on the first digit that takes the
/// value above `max`.
pub open spec fn parse_digits(d: Seq<char>, radix: nat, max: nat, acc: nat) -> Result<
    nat,
    IntErrorKind,
>
    decreases d.len(),
{
    if d.len() == 0 {
        Ok(acc)
    } else {
        match digit_value(d[0], radix) {
            None => Err(IntErrorKind::InvalidDigit),
            Some(x) => if acc * radix + x > max {
                Err(IntErrorKind::PosOverflow)
            } else {
                parse_digits(d.drop_first(), radix, max, acc * radix + x)
            },
        }
    }
}

/// An unsigned integer no larger than `max`, written in `radix` with an
/// optional leading `+` (what `from_str_radix` accepts for unsigned types).
pub open spec fn parse_unsigned(s: Seq<char>, radix: nat, max: nat) -> Result<nat, IntErrorKind> {
    if s.len() == 0 {
        Err(IntErrorKind::Empty)
    } else if s.len() == 1 && (s[0] == '+' || s[0] == '-') {
        Err(IntErrorKind::InvalidDigit)
    } else if s[0] == '+' {
        parse_digits(s.drop_first(), radix, max, 0)
    } else {
        parse_digits(s, radix, max, 0)
    }
}

/// A result of `parse_unsigned_range` seen as a natural number.
pub open spec fn nat_result(r: Result<u32, IntErrorKind>) -> Result<nat, IntErrorKind> {
    match r {
        Ok(n) => Ok(n as nat),
        Err(e) => Err(e),
    }
}

/// Every value that `parse_digits` reads is at most `max`.
pub proof fn lemma_parse_digits_bound(d: Seq<char>, radix: nat, max: nat, acc: nat)
    requires
        acc <= max,
    ensures
        parse_digits(d, radix, max, acc) matches Ok(n) ==> n <= max,
    decreases d.len(),
{
    if d.len() > 0 {
        if let Some(x) = digit_value(d[0], radix) {
            if acc * radix + x <= max {
                lemma_parse_digits_bound(d.drop_first(), radix, max, acc * radix + x);
            }
        }
    }
}

/// Every value that `parse_unsigned` reads is at most `max`.
pub proof fn lemma_parse_unsigned_bound(s: Seq<char>, radix: nat, max: nat)
    ensures
        parse_unsigned(s, radix, max) matches Ok(n) ==> n <= max,
{
    if s.len() > 0 {
        lemma_parse_digits_bound(s, radix, max, 0);
        lemma_parse_digits_bound(s.drop_first(), radix, max, 0);
    }
}

/// The characters of `s`.
pub fn chars_of(s: &str) -> (v: Vec<char>)
    ensures
        v@ == s@,
{
    let mut v: Vec<char> = Vec::new();
    for c in it: s.chars()
        invariant
            v@ == it.seq().take(it.index() as int),
            it.seq() == s@,
    {
        v.push(c);
    }
    v
}

/// The text of `s` between character positions `lo` and `hi`, as a `String`.
pub fn substring(s: &str, lo: usize, hi: usize) -> (r: String)
    requires
        lo <= hi <= s@.len(),
    ensures
        r@ == s@.subrange(lo as int, hi as int),
{
    String::from_str(s.substring_char(lo, hi))
}

/// The bounds of `v[lo..hi]` without its leading and trailing whitespace.
pub fn trim_range(v: &Vec<char>, lo: usize, hi: usize) -> (r: (usize, usize))
    requires
        lo <= hi <= v.len(),
    ensures
        lo <= r.0 <= r.1 <= hi,
        v@.subrange(r.0 as int, r.1 as int) == trim(v@.subrange(lo as int, hi as int)),
{
    let mut i = lo;
    while i < hi && is_white_space(v[i])
        invariant
            lo <= i <= hi <= v.len(),
            trim_start(v@.subrange(lo as int, hi as int)) == trim_start(
                v@.subrange(i as int, hi as int),
            ),
        decreases hi - i,
    {
        assert(v@.subrange(i as int, hi as int).drop_first() =~= v@.subrange(
            i as int + 1,
            hi as int,
        ));
        i = i + 1;
    }
    let mut j = hi;
    while j > i && is_white_space(v[j - 1])
        invariant
            lo <= i <= j <= hi <= v.len(),
            trim_start(v@.subrange(lo as int, hi as int)) == v@.subrange(i as int, hi as int),
            trim_end(v@.subrange(i as int, hi as int)) == trim_end(
                v@.subrange(i as int, j as int),
            ),
        decreases j - i,
    {
        assert(v@.subrange(i as int, j as int).drop_last() =~= v@.subrange(
            i as int,
            j as int - 1,
        ));
        j = j - 1;
    }
    (i, j)
}

/// `split` always yields at least one piece.
pub proof fn lemma_split_len(s: Seq<char>, sep: char)
    ensures
        split(s, sep).len() >= 1,
    decreases s.len(),
{
    if s.len() > 0 {
        lemma_split_len(s.drop_last(), sep);
    }
}

/// The ranges of the pieces of `v[lo..hi]` between occurrences of `sep`.
pub fn split_ranges(v: &Vec<char>, lo: usize, hi: usize, sep: char) -> (r: Vec<(usize, usize)>)
    requires
        lo <= hi <= v.len(),
    ensures
        r.len() >= 1,
        forall|k: int| 0 <= k < r.len() ==> lo <= (#[trigger] r[k]).0 <= r[k].1 <= hi,
        ranges_text(v@, r@) == split(v@.subrange(lo as int, hi as int), sep),
{
    let mut closed: Vec<(usize, usize)> = Vec::new();
    let mut start = lo;
    let mut i = lo;
    assert(v@.subrange(lo as int, lo as int) =~= Seq::<char>::empty());
    assert(ranges_text(v@, closed@.push((start, i))) =~= split(
        v@.subrange(lo as int, i as int),
        sep,
    ));
    while i < hi
        invariant
            lo <= start <= i <= hi <= v.len(),
            forall|k: int|
                0 <= k < closed.len() ==> lo <= (#[trigger] closed[k]).0 <= closed[k].1 <= start,
            ranges_text(v@, closed@.push((start, i))) == split(
                v@.subrange(lo as int, i as int),
                sep,
            ),
        decreases hi - i,
    {
        let ghost pre = v@.subrange(lo as int, i as int);
        let ghost cur = v@.subrange(lo as int, i as int + 1);
        assert(cur.drop_last() =~= pre);
        assert(cur.last() == v@[i as int]);
        proof {
            lemma_split_len(pre, sep);
        }
        if v[i] == sep {
            let ghost old_r = closed@.push((start, i));
            closed.push((start, i));
            start = i + 1;
            i = i + 1;
            assert(closed@ == old_r);
            assert(v@.subrange(i as int, i as int) =~= Seq::<char>::empty());
            assert(split(cur, sep) == split(pre, sep).push(Seq::empty()));
            assert(ranges_text(v@, closed@.push((start, i))) =~= ranges_text(v@, old_r).push(
                Seq::empty(),
            ));
            assert(ranges_text(v@, closed@.push((start, i))) =~= split(
                v@.subrange(lo as int, i as int),
                sep,
            ));
        } else {
            let ghost old_closed = closed@;
            assert(v@.subrange(start as int, i as int).push(v@[i as int]) =~= v@.subrange(
                start as int,
                i as int + 1,
            ));
            i = i + 1;
            assert(ranges_text(v@, closed@.push((start, i))) =~= split(
                v@.subrange(lo as int, i as int),
                sep,
            ));
        }
    }
    closed.push((start, i));
    closed
}

/// Whether `v[lo..hi]`, folded to ASCII lower case, is `name`.
pub fn lower_eq(v: &Vec<char>, lo: usize, hi: usize, name: &[char]) -> (b: bool)
    requires
        lo <= hi <= v.len(),
    ensures
        b == (ascii_lowercase(v@.subrange(lo as int, hi as int)) == name@),
{
    let ghost s = v@.subrange(lo as int, hi as int);
    if hi - lo != name.len() {
        assert(ascii_lowercase(s).len() != name@.len());
        return false;
    }
    let mut k: usize = 0;
    while k < name.len()
        invariant
            hi - lo == name.len(),
            lo <= hi <= v.len(),
            s == v@.subrange(lo as int, hi as int),
            0 <= k <= name.len(),
            forall|m: int| 0 <= m < k ==> ascii_lower(s[m]) == name@[m],
        decreases name.len() - k,
    {
        let c = v[lo + k];
        let n = name[k];
        let cu = c as u32;
        let folded: u32 = if 65 <= cu && cu <= 90 {
            cu + 32
        } else {
            cu
        };
        assert(s[k as int] == c);
        proof {
            vstd::utf8::char_u32_cast(c, cu);
            vstd::utf8::char_u32_cast(n, n as u32);
        }
        if folded != n as u32 {
            assert(ascii_lower(c) as u32 == folded);
            assert(ascii_lowercase(s)[k as int] != name@[k as int]);
            return false;
        }
        assert(ascii_lower(c) == n);
        k = k + 1;
    }
    assert(ascii_lowercase(s) =~= name@);
    true
}

/// The value of `c` as a digit in `radix`, if it is one.
pub fn to_digit(c: char, radix: u32) -> (r: Option<u32>)
    requires
        2 <= radix <= 36,
    ensures
        match digit_value(c, radix as nat) {
            Some(d) => r == Some(d as u32),
            None => r is None,
        },
{
    let u = c as u32;
    let d: u32 = if 48 <= u && u <= 57 {
        u - 48
    } else if 97 <= u && u <= 122 {
        u - 97 + 10
    } else if 65 <= u && u <= 90 {
        u - 65 + 10
    } else {
        36
    };
    if d < radix {
        Some(d)
    } else {
        None
    }
}

/// Reads `v[lo..hi]` as an unsigned integer no larger than `max`, written in
/// `radix` with an optional leading `+`.
pub fn parse_unsigned_range(v: &Vec<char>, lo: usize, hi: usize, radix: u32, max: u32) -> (r:
    Result<u32, IntErrorKind>)
    requires
        lo <= hi <= v.len(),
        2 <= radix <= 36,
    ensures
        nat_result(r) == parse_unsigned(v@.subrange(lo as int, hi as int), radix as nat, max as nat),
{
    let ghost s = v@.subrange(lo as int, hi as int);
    if lo == hi {
        return Err(IntErrorKind::Empty);
    }
    if hi - lo == 1 && (v[lo] == '+' || v[lo] == '-') {
        return Err(IntErrorKind::InvalidDigit);
    }
    let mut i = lo;
    if v[lo] == '+' {
        i = lo + 1;
        assert(s.drop_first() =~= v@.subrange(i as int, hi as int));
    } else {
        assert(s =~= v@.subrange(i as int, hi as int));
    }
    let ghost d0 = v@.subrange(i as int, hi as int);
    let mut acc: u32 = 0;
    while i < hi
        invariant
            lo <= i <= hi <= v.len(),
            2 <= radix <= 36,
            acc <= max,
            s == v@.subrange(lo as int, hi as int),
            parse_unsigned(s, radix as nat, max as nat) == parse_digits(
                v@.subrange(i as int, hi as int),
                radix as nat,
                max as nat,
                acc as nat,
            ),
        decreases hi - i,
    {
        let ghost rest = v@.subrange(i as int, hi as int);
        assert(rest[0] == v@[i as int]);
        assert(rest.drop_first() =~= v@.subrange(i as int + 1, hi as int));
        match to_digit(v[i], radix) {
            None => {
                assert(digit_value(rest[0], radix as nat) is None);
                return Err(IntErrorKind::InvalidDigit);
            },
            Some(x) => {
                assert(acc as nat * radix as nat <= 0xffff_ffff * 36) by (nonlinear_arith)
                    requires
                        acc <= 0xffff_ffff,
                        radix <= 36,
                ;
                let next: u64 = acc as u64 * radix as u64 + x as u64;
                if next > max as u64 {
                    return Err(IntErrorKind::PosOverflow);
                }
                acc = next as u32;
                i = i + 1;
            },
        }
    }
    assert(v@.subrange(i as int, hi as int).len() == 0);
    Ok(acc)
}


/// `s` without its leading `#` characters (`trim_start_matches('#')`).
pub open spec fn strip_hashes(s: Seq<char>) -> Seq<char>
    decreases s.len(),
{
    if s.len() > 0 && s[0] == '#' {
        strip_hashes(s.drop_first())
    } else {
        s
    }
}

/// `s` without its leading `"0x"` prefixes (`trim_start_matches("0x")`).
pub open spec fn strip_0x(s: Seq<char>) -> Seq<char>
    decreases s.len(),
{
    if s.len() >= 2 && s[0] == '0' && s[1] == 'x' {
        strip_0x(s.skip(2))
    } else {
        s
    }
}

/// The number of bytes that UTF-8 takes for `c`.
pub open spec fn utf8_width(c: char) -> nat {
    let u = c as u32;
    if u < 0x80 {
        1
    } else if u < 0x800 {
        2
    } else if u < 0x10000 {
        3
    } else {
        4
    }
}

/// The number of bytes that UTF-8 takes for `s` (what `str::len` returns).
pub open spec fn utf8_len(s: Seq<char>) -> nat
    decreases s.len(),
{
    if s.len() == 0 {
        0
    } else {
        utf8_width(s[0]) + utf8_len(s.drop_first())
    }
}

/// The number of characters of `s` that take exactly `n` bytes, if byte
/// offset `n` falls on a character boundary within `s`.
pub open spec fn byte_index(s: Seq<char>, n: nat) -> Option<nat>
    decreases s.len(),
{
    if n == 0 {
        Some(0)
    } else if s.len() == 0 {
        None
    } else if utf8_width(s[0]) > n {
        None
    } else {
        match byte_index(s.drop_first(), (n - utf8_width(s[0])) as nat) {
            Some(k) => Some(k + 1),
            None => None,
        }
    }
}

/// `o` with `d` added to the index it holds.
pub open spec fn shift_index(o: Option<nat>, d: int) -> Option<nat> {
    match o {
        Some(k) => Some((k + d) as nat),
        None => None,
    }
}

/// The number of bytes that UTF-8 takes for `c`.
fn char_width(c: char) -> (w: usize)
    ensures
        w == utf8_width(c),
        1 <= w <= 4,
{
    let u = c as u32;
    if u < 0x80 {
        1
    } else if u < 0x800 {
        2
    } else if u < 0x10000 {
        3
    } else {
        4
    }
}

/// The start of `v[lo..hi]` with its leading `#` characters removed.
pub fn skip_hashes(v: &Vec<char>, lo: usize, hi: usize) -> (r: usize)
    requires
        lo <= hi <= v.len(),
    ensures
        lo <= r <= hi,
        v@.subrange(r as int, hi as int) == strip_hashes(v@.subrange(lo as int, hi as int)),
{
    let mut i = lo;
    while i < hi && v[i] == '#'
        invariant
            lo <= i <= hi <= v.len(),
            strip_hashes(v@.subrange(lo as int, hi as int)) == strip_hashes(
                v@.subrange(i as int, hi as int),
            ),
        decreases hi - i,
    {
        assert(v@.subrange(i as int, hi as int).drop_first() =~= v@.subrange(
            i as int + 1,
            hi as int,
        ));
        i = i + 1;
    }
    i
}

/// The start of `v[lo..hi]` with its leading `"0x"` prefixes removed.
pub fn skip_0x(v: &Vec<char>, lo: usize, hi: usize) -> (r: usize)
    requires
        lo <= hi <= v.len(),
    ensures
        lo <= r <= hi,
        v@.subrange(r as int, hi as int) == strip_0x(v@.subrange(lo as int, hi as int)),
{
    let mut i = lo;
    while hi - i >= 2 && v[i] == '0' && v[i + 1] == 'x'
        invariant
            lo <= i <= hi <= v.len(),
            strip_0x(v@.subrange(lo as int, hi as int)) == strip_0x(
                v@.subrange(i as int, hi as int),
            ),
        decreases hi - i,
    {
        assert(v@.subrange(i as int, hi as int).skip(2) =~= v@.subrange(i as int + 2, hi as int));
        i = i + 2;
    }
    i
}

/// Whether `v[lo..hi]` takes exactly `n` bytes in UTF-8.
pub fn utf8_len_is(v: &Vec<char>, lo: usize, hi: usize, n: usize) -> (b: bool)
    requires
        lo <= hi <= v.len(),
        n <= 64,
    ensures
        b == (utf8_len(v@.subrange(lo as int, hi as int)) == n),
{
    let mut i = lo;
    let mut total: usize = 0;
    while i < hi && total <= n
        invariant
            lo <= i <= hi <= v.len(),
            n <= 64,
            total <= n + 4,
            utf8_len(v@.subrange(lo as int, hi as int)) == total + utf8_len(
                v@.subrange(i as int, hi as int),
            ),
        decreases hi - i,
    {
        let ghost rest = v@.subrange(i as int, hi as int);
        assert(rest[0] == v@[i as int]);
        assert(rest.drop_first() =~= v@.subrange(i as int + 1, hi as int));
        total = total + char_width(v[i]);
        i = i + 1;
    }
    if total > n {
        false
    } else {
        assert(v@.subrange(i as int, hi as int).len() == 0);
        total == n
    }
}

/// The position in `v` where the first `n` bytes of `v[lo..hi]` end, if
/// that is a character boundary.
pub fn byte_position(v: &Vec<char>, lo: usize, hi: usize, n: usize) -> (r: Option<usize>)
    requires
        lo <= hi <= v.len(),
        n <= 64,
    ensures
        match byte_index(v@.subrange(lo as int, hi as int), n as nat) {
            Some(k) => r == Some((lo + k) as usize),
            None => r is None,
        },
{
    let mut i = lo;
    let mut rem = n;
    while rem > 0
        invariant
            lo <= i <= hi <= v.len(),
            rem <= n,
            byte_index(v@.subrange(lo as int, hi as int), n as nat) == shift_index(
                byte_index(v@.subrange(i as int, hi as int), rem as nat),
                i - lo,
            ),
        decreases rem,
    {
        let ghost rest = v@.subrange(i as int, hi as int);
        if i == hi {
            return None;
        }
        assert(rest[0] == v@[i as int]);
        assert(rest.drop_first() =~= v@.subrange(i as int + 1, hi as int));
        let w = char_width(v[i]);
        if w > rem {
            return None;
        }
        rem = rem - w;
        i = i + 1;
    }
    Some(i)
}

/// A byte index lies within the text.
pub proof fn lemma_byte_index_bound(s: Seq<char>, n: nat)
    ensures
        byte_index(s, n) matches Some(k) ==> k <= s.len(),
    decreases s.len(),
{
    if n > 0 && s.len() > 0 && utf8_width(s[0]) <= n {
        lemma_byte_index_bound(s.drop_first(), (n - utf8_width(s[0])) as nat);
    }
}

/// Byte indices come in the order of their byte offsets.
pub proof fn lemma_byte_index_order(s: Seq<char>, m: nat, n: nat)
    requires
        m <= n,
        byte_index(s, m) is Some,
        byte_index(s, n) is Some,
    ensures
        byte_index(s, m)->0 <= byte_index(s, n)->0,
    decreases s.len(),
{
    if m > 0 {
        let w = utf8_width(s[0]);
        lemma_byte_index_order(s.drop_first(), (m - w) as nat, (n - w) as nat);
    }
}



/// Whether every character of `ws` is whitespace.
pub open spec fn all_white_space(ws: Seq<char>) -> bool {
    forall|i: int| 0 <= i < ws.len() ==> unicode_white_space(#[trigger] ws[i])
}

/// Leading whitespace does not change what `trim_start` keeps.
pub proof fn lemma_trim_start_white(ws: Seq<char>, x: Seq<char>)
    requires
        all_white_space(ws),
    ensures
        trim_start(ws + x) == trim_start(x),
    decreases ws.len(),
{
    if ws.len() > 0 {
        assert((ws + x)[0] == ws[0]);
        assert((ws + x).drop_first() =~= ws.drop_first() + x);
        assert(all_white_space(ws.drop_first())) by {
            assert forall|i: int| 0 <= i < ws.drop_first().len() implies unicode_white_space(
                #[trigger] ws.drop_first()[i],
            ) by {
                assert(ws.drop_first()[i] == ws[i + 1]);
            }
        }
        lemma_trim_start_white(ws.drop_first(), x);
    } else {
        assert(ws + x =~= x);
    }
}

/// Trailing whitespace does not change what `trim_end` keeps.
pub proof fn lemma_trim_end_white(x: Seq<char>, ws: Seq<char>)
    requires
        all_white_space(ws),
    ensures
        trim_end(x + ws) == trim_end(x),
    decreases ws.len(),
{
    if ws.len() > 0 {
        assert((x + ws).last() == ws.last());
        assert((x + ws).drop_last() =~= x + ws.drop_last());
        assert(all_white_space(ws.drop_last())) by {
            assert forall|i: int| 0 <= i < ws.drop_last().len() implies unicode_white_space(
                #[trigger] ws.drop_last()[i],
            ) by {
                assert(ws.drop_last()[i] == ws[i]);
            }
        }
        lemma_trim_end_white(x, ws.drop_last());
    } else {
        assert(x + ws =~= x);
    }
}

/// Trimming a text that starts and ends with something other than
/// whitespace, between runs of whitespace, gives the text.
pub proof fn lemma_trim_around(lead: Seq<char>, body: Seq<char>, trail: Seq<char>)
    requires
        all_white_space(lead),
        all_white_space(trail),
        body.len() > 0,
        !unicode_white_space(body[0]),
        !unicode_white_space(body.last()),
    ensures
        trim(lead + body + trail) == body,
{
    assert(lead + body + trail =~= lead + (body + trail));
    lemma_trim_start_white(lead, body + trail);
    assert((body + trail)[0] == body[0]);
    assert(trim_start(body + trail) == body + trail);
    lemma_trim_end_white(body, trail);
}

/// An ASCII text takes one byte per character, so each character count is
/// a byte offset.
pub proof fn lemma_ascii_bytes(s: Seq<char>, n: nat)
    requires
        forall|i: int| 0 <= i < s.len() ==> (#[trigger] s[i] as u32) < 0x80,
    ensures
        utf8_len(s) == s.len(),
        n <= s.len() ==> byte_index(s, n) == Some(n),
    decreases s.len(),
{
    if s.len() > 0 {
        assert forall|i: int| 0 <= i < s.drop_first().len() implies (#[trigger] s.drop_first()[i]
            as u32) < 0x80 by {
            assert(s.drop_first()[i] == s[i + 1]);
        }
        assert((s[0] as u32) < 0x80);
        lemma_ascii_bytes(s.drop_first(), 0);
        if n > 0 {
            lemma_ascii_bytes(s.drop_first(), (n - 1) as nat);
        }
    }
}
} // verus!
