//! Text over the character view of strings: formatting of numbers,
//! searching, splitting, trimming and parsing.
//!
//! A string is seen as a sequence of characters. The functions that take a
//! string apart work on its characters and hand out fresh strings.

pub mod laws;

use vstd::prelude::*;
use vstd::string::*;

verus! {

/// `String::push`: appends one character at the end.
pub assume_specification[ String::push ](s: &mut String, c: char)
    ensures
        final(s)@ == old(s)@.push(c),
;

// ---------------------------------------------------------------------------
// Vocabulary
// ---------------------------------------------------------------------------

/// The views of a sequence of strings.
pub open spec fn texts(v: Seq<String>) -> Seq<Seq<char>> {
    v.map_values(|s: String| s@)
}

/// Appending a string appends its view.
pub broadcast proof fn lemma_texts_push(v: Seq<String>, s: String)
    ensures
        #[trigger] texts(v.push(s)) == texts(v).push(s@),
{
    assert(texts(v.push(s)) =~= texts(v).push(s@));
}

/// Joining two lists joins their views.
pub broadcast proof fn lemma_texts_add(v: Seq<String>, w: Seq<String>)
    ensures
        #[trigger] texts(v + w) == texts(v) + texts(w),
{
    assert(texts(v + w) =~= texts(v) + texts(w));
}

/// The view of an optional string.
pub open spec fn opt_text(o: Option<String>) -> Option<Seq<char>> {
    match o {
        Some(s) => Some(s@),
        None => None,
    }
}

/// The views of a sequence of pairs of strings.
pub open spec fn text_pairs(v: Seq<(String, String)>) -> Seq<(Seq<char>, Seq<char>)> {
    v.map_values(|p: (String, String)| (p.0@, p.1@))
}

/// The character of one digit, decimal or (lower-case) hexadecimal.
pub open spec fn digit(d: nat) -> char {
    if d < 10 {
        (48 + d) as char
    } else {
        (87 + d) as char
    }
}

/// The digits of `n` in `base`, most significant first.
pub open spec fn digits(n: nat, base: nat) -> Seq<char>
    recommends
        2 <= base <= 16,
    decreases n,
{
    if n < base || base < 2 {
        seq![digit(n)]
    } else {
        proof {
            assert(n / base < n) by (nonlinear_arith)
                requires
                    n >= base,
                    base >= 2,
            ;
        }
        digits(n / base, base).push(digit(n % base))
    }
}

/// The decimal digits of `n`.
pub open spec fn dec(n: nat) -> Seq<char> {
    digits(n, 10)
}

/// The lower-case hexadecimal digits of `n`.
pub open spec fn hex(n: nat) -> Seq<char> {
    digits(n, 16)
}

/// A power of sixteen.
pub open spec fn pow16(k: nat) -> nat
    decreases k,
{
    if k == 0 {
        1
    } else {
        16 * pow16((k - 1) as nat)
    }
}

/// A number below the `k`-th power of sixteen has at most `k` hexadecimal
/// digits, all of them ASCII letters or digits.
pub proof fn lemma_hex(n: nat, k: nat)
    requires
        k >= 1,
        n < pow16(k),
    ensures
        1 <= hex(n).len() <= k,
        forall|i: int| 0 <= i < hex(n).len() ==> 48 <= (#[trigger] hex(n)[i]) as u32 <= 102,
    decreases k,
{
    if n >= 16 {
        assert(k > 1) by {
            if k == 1 {
                reveal_with_fuel(pow16, 2);
            }
        }
        lemma_hex(n / 16, (k - 1) as nat);
        let before = hex(n / 16);
        assert(hex(n) == before.push(digit(n % 16)));
        assert forall|i: int| 0 <= i < hex(n).len() implies 48 <= (#[trigger] hex(n)[i]) as u32
            <= 102 by {
            if i < before.len() {
                assert(hex(n)[i] == before[i]);
            }
        }
    }
}

/// The decimal form of a number is one or more digits, whose value is the
/// number.
pub proof fn lemma_dec(n: nat)
    ensures
        dec(n).len() >= 1,
        all_digits(dec(n)),
        digits_value(dec(n)) == n,
        parse_dec(dec(n)) == Some(n),
    decreases n,
{
    let d = n % 10;
    let last = digit(d);
    assert('0' <= last <= '9' && last as nat - 48 == d);
    if n >= 10 {
        lemma_dec(n / 10);
        let before = dec(n / 10);
        assert(dec(n) == before.push(last));
        assert(dec(n).drop_last() =~= before);
        assert forall|i: int| 0 <= i < dec(n).len() implies '0' <= #[trigger] dec(n)[i]
            <= '9' by {
            if i < before.len() {
                assert(dec(n)[i] == before[i]);
            }
        }
    } else {
        assert(dec(n) == seq![last]);
        assert(dec(n).drop_last() =~= Seq::<char>::empty());
        assert(dec(n).last() == last);
        reveal_with_fuel(digits_value, 2);
    }
    assert('0' <= dec(n)[0]);
}

/// The decimal form of an integer, with a leading minus sign when negative.
pub open spec fn dec_int(n: int) -> Seq<char> {
    if n < 0 {
        seq!['-'] + dec((-n) as nat)
    } else {
        dec(n as nat)
    }
}

/// `s` with zeros in front of it up to `width` characters.
pub open spec fn zero_pad(s: Seq<char>, width: nat) -> Seq<char> {
    if s.len() >= width {
        s
    } else {
        Seq::new((width - s.len()) as nat, |i: int| '0') + s
    }
}

/// The Unicode `White_Space` characters.
pub open spec fn is_white(c: char) -> bool {
    let u = c as u32;
    ||| 9 <= u <= 13
    ||| u == 0x20
    ||| u == 0x85
    ||| u == 0xa0
    ||| u == 0x1680
    ||| 0x2000 <= u <= 0x200a
    ||| u == 0x2028
    ||| u == 0x2029
    ||| u == 0x202f
    ||| u == 0x205f
    ||| u == 0x3000
}

/// `s` without its leading white space.
pub open spec fn trim_start(s: Seq<char>) -> Seq<char>
    decreases s.len(),
{
    if s.len() > 0 && is_white(s[0]) {
        trim_start(s.skip(1))
    } else {
        s
    }
}

/// `s` without its trailing white space.
pub open spec fn trim_end(s: Seq<char>) -> Seq<char>
    decreases s.len(),
{
    if s.len() > 0 && is_white(s.last()) {
        trim_end(s.drop_last())
    } else {
        s
    }
}

/// `s` without white space at either end.
pub open spec fn trim(s: Seq<char>) -> Seq<char> {
    trim_end(trim_start(s))
}

/// `s` without the trailing occurrences of `c`.
pub open spec fn trim_end_char(s: Seq<char>, c: char) -> Seq<char>
    decreases s.len(),
{
    if s.len() > 0 && s.last() == c {
        trim_end_char(s.drop_last(), c)
    } else {
        s
    }
}

/// The position of the first `c` in `s`, or the length of `s` if there is
/// none.
pub open spec fn find(s: Seq<char>, c: char) -> int
    decreases s.len(),
{
    if s.len() == 0 || s[0] == c {
        0
    } else {
        1 + find(s.skip(1), c)
    }
}

/// The position of the last `c` in `s`, or -1 if there is none.
pub open spec fn rfind(s: Seq<char>, c: char) -> int
    decreases s.len(),
{
    if s.len() == 0 {
        -1
    } else if s.last() == c {
        s.len() - 1
    } else {
        rfind(s.drop_last(), c)
    }
}

/// The pieces of `s` between the occurrences of `c`.
pub open spec fn split(s: Seq<char>, c: char) -> Seq<Seq<char>>
    decreases s.len(),
{
    let i = find(s, c);
    if 0 <= i < s.len() {
        seq![s.take(i)] + split(s.skip(i + 1), c)
    } else {
        seq![s]
    }
}

/// The two sides of the first `c` in `s`.
pub open spec fn split_once(s: Seq<char>, c: char) -> Option<(Seq<char>, Seq<char>)> {
    let i = find(s, c);
    if i < s.len() {
        Some((s.take(i), s.skip(i + 1)))
    } else {
        None
    }
}

/// Whether `p` stands in `s` at `i`.
pub open spec fn stands_at(s: Seq<char>, p: Seq<char>, i: int) -> bool {
    0 <= i && i + p.len() <= s.len() && s.subrange(i, i + p.len()) == p
}

/// The first place, from `from` on, at which `p` stands in `s`; where there
/// is none, -1.
pub open spec fn find_text(s: Seq<char>, p: Seq<char>, from: int) -> int
    decreases s.len() - from + 1,
{
    if from < 0 || from + p.len() > s.len() {
        -1
    } else if stands_at(s, p, from) {
        from
    } else {
        find_text(s, p, from + 1)
    }
}

/// What follows the first `p` in `s`.
pub open spec fn after_text(s: Seq<char>, p: Seq<char>) -> Option<Seq<char>> {
    let i = find_text(s, p, 0);
    if i >= 0 {
        Some(s.skip(i + p.len()))
    } else {
        None
    }
}

/// ASCII lower case of one character; other characters stay as they are.
pub open spec fn lower_char(c: char) -> char {
    if 'A' <= c <= 'Z' {
        (c as u32 + 32) as char
    } else {
        c
    }
}

/// ASCII lower case of a text.
pub open spec fn lower(s: Seq<char>) -> Seq<char> {
    s.map_values(|c: char| lower_char(c))
}

/// ASCII upper case of one character; other characters stay as they are.
pub open spec fn upper_char(c: char) -> char {
    if 'a' <= c <= 'z' {
        (c as u32 - 32) as char
    } else {
        c
    }
}

/// ASCII upper case of a text.
pub open spec fn upper(s: Seq<char>) -> Seq<char> {
    s.map_values(|c: char| upper_char(c))
}

/// Whether every character is ASCII.
pub open spec fn all_ascii(s: Seq<char>) -> bool {
    forall|i: int| 0 <= i < s.len() ==> (#[trigger] s[i]) as u32 <= 127
}

/// The value of a run of decimal digits.
pub open spec fn digits_value(s: Seq<char>) -> nat
    decreases s.len(),
{
    if s.len() == 0 {
        0
    } else {
        (digits_value(s.drop_last()) * 10 + (s.last() as nat - 48)) as nat
    }
}

/// Whether every character is a decimal digit.
pub open spec fn all_digits(s: Seq<char>) -> bool {
    forall|i: int| 0 <= i < s.len() ==> '0' <= #[trigger] s[i] <= '9'
}

/// The number that a decimal numeral stands for: one or more digits, with at
/// most one plus sign in front.
pub open spec fn parse_dec(s: Seq<char>) -> Option<nat> {
    let d = if s.len() > 0 && s[0] == '+' {
        s.skip(1)
    } else {
        s
    };
    if d.len() > 0 && all_digits(d) {
        Some(digits_value(d))
    } else {
        None
    }
}

/// `parse_dec` for a type that holds values up to `max`.
pub open spec fn parse_max(s: Seq<char>, max: nat) -> Option<nat> {
    match parse_dec(s) {
        Some(n) => if n <= max {
            Some(n)
        } else {
            None
        },
        None => None,
    }
}

/// The text of an optional string slice.
pub open spec fn opt_str(value: Option<&str>) -> Option<Seq<char>> {
    match value {
        Some(v) => Some(v@),
        None => None,
    }
}

/// The length of a run of characters that are not white space.
pub open spec fn word_len(s: Seq<char>) -> nat
    decreases s.len(),
{
    if s.len() == 0 || is_white(s[0]) {
        0
    } else {
        1 + word_len(s.skip(1))
    }
}

/// The second of the words of a text, words being what white space parts.
pub open spec fn second_word(s: Seq<char>) -> Option<Seq<char>> {
    let t = trim_start(s);
    let u = trim_start(t.skip(word_len(t) as int));
    if u.len() == 0 {
        None
    } else {
        Some(u.take(word_len(u) as int))
    }
}

// ---------------------------------------------------------------------------
// Bytes as text, and values as debugging text
// ---------------------------------------------------------------------------

/// The text that `String::from_utf8_lossy` makes of bytes.
pub uninterp spec fn lossy_text(bytes: Seq<u8>) -> Seq<char>;

/// `String::from_utf8_lossy`: the bytes as text, with a replacement character
/// for what is not UTF-8. Valid UTF-8 comes out as the text it encodes.
#[verifier::external_body]
pub(crate) fn utf8_lossy(bytes: &[u8]) -> (r: String)
    ensures
        r@ == lossy_text(bytes@),
        vstd::utf8::valid_utf8(bytes@) ==> r@ == vstd::utf8::decode_utf8(bytes@),
{
    String::from_utf8_lossy(bytes).into_owned()
}

/// The debugging text of a string: the string between double quotes, with
/// what is not printable escaped.
pub uninterp spec fn debug_text(s: Seq<char>) -> Seq<char>;

/// Whether a text holds only printable ASCII other than quotes and the
/// backslash.
pub open spec fn is_plain(s: Seq<char>) -> bool {
    forall|i: int|
        0 <= i < s.len() ==> 32 <= (#[trigger] s[i]) as u32 && (s[i] as u32) < 127 && s[i] != '"'
            && s[i] != '\\' && s[i] != '\''
}

/// `{:?}` of a string: the string between double quotes. Plain text stays as
/// it is between them.
#[verifier::external_body]
pub(crate) fn debug_str(s: &str) -> (r: String)
    ensures
        r@ == debug_text(s@),
        is_plain(s@) ==> r@ == seq!['"'] + s@ + seq!['"'],
{
    format!("{s:?}")
}

/// The debugging text of a duration.
pub uninterp spec fn duration_text(secs: u64, nanos: u32) -> Seq<char>;

/// `{:?}` of `std::time::Duration`.
#[verifier::external_body]
pub(crate) fn debug_duration(secs: u64, nanos: u32) -> (r: String)
    requires
        nanos < 1_000_000_000,
    ensures
        r@ == duration_text(secs, nanos),
{
    format!("{:?}", std::time::Duration::new(secs, nanos))
}

// ---------------------------------------------------------------------------
// Building blocks
// ---------------------------------------------------------------------------

/// The characters of a string.
pub fn chars(s: &str) -> (v: Vec<char>)
    ensures
        v@ == s@,
{
    let mut v: Vec<char> = Vec::new();
    for c in it: s.chars()
        invariant
            v@ == it.seq().take(it.index()),
    {
        v.push(c);
    }
    v
}

/// The string of the characters from `from` up to `to`.
pub fn from_chars(v: &Vec<char>, from: usize, to: usize) -> (s: String)
    requires
        from <= to <= v.len(),
    ensures
        s@ == v@.subrange(from as int, to as int),
{
    let mut s = String::new();
    let mut i: usize = from;
    while i < to
        invariant
            from <= i <= to <= v.len(),
            s@ == v@.subrange(from as int, i as int),
        decreases to - i,
    {
        s.push(v[i]);
        i = i + 1;
        assert(v@.subrange(from as int, i as int) =~= v@.subrange(from as int, i - 1).push(v@[i - 1]));
    }
    s
}

/// Whether two strings hold the same characters.
pub fn same(a: &str, b: &str) -> (r: bool)
    ensures
        r == (a@ == b@),
{
    a.to_owned() == b.to_owned()
}

/// The length of the run of characters from `from` on that are not white.
fn run_of_word(v: &Vec<char>, from: usize) -> (to: usize)
    requires
        from <= v.len(),
    ensures
        from <= to <= v.len(),
        to - from == word_len(v@.skip(from as int)),
{
    let mut to: usize = from;
    while to < v.len() && !white(v[to])
        invariant
            from <= to <= v.len(),
            word_len(v@.skip(from as int)) == to - from + word_len(v@.skip(to as int)),
        decreases v.len() - to,
    {
        assert(v@.skip(to as int)[0] == v@[to as int]);
        assert(v@.skip(to as int).skip(1) =~= v@.skip(to + 1));
        to = to + 1;
    }
    assert(to < v.len() ==> v@.skip(to as int)[0] == v@[to as int]);
    to
}

/// The end of the run of white space from `from` on.
fn run_of_white(v: &Vec<char>, from: usize) -> (to: usize)
    requires
        from <= v.len(),
    ensures
        from <= to <= v.len(),
        trim_start(v@.skip(from as int)) == v@.skip(to as int),
{
    let mut to: usize = from;
    while to < v.len() && white(v[to])
        invariant
            from <= to <= v.len(),
            trim_start(v@.skip(from as int)) == trim_start(v@.skip(to as int)),
        decreases v.len() - to,
    {
        assert(v@.skip(to as int)[0] == v@[to as int]);
        assert(v@.skip(to as int).skip(1) =~= v@.skip(to + 1));
        to = to + 1;
    }
    assert(to < v.len() ==> v@.skip(to as int)[0] == v@[to as int]);
    to
}

/// The second of the words of a text, words being what white space parts.
pub fn word_two(s: &str) -> (r: Option<String>)
    ensures
        opt_text(r) == second_word(s@),
{
    let v = chars(s);
    assert(v@.skip(0) =~= v@);
    let a: usize = run_of_white(&v, 0);
    let b: usize = run_of_word(&v, a);
    assert(v@.skip(a as int).skip(b - a) =~= v@.skip(b as int));
    let c: usize = run_of_white(&v, b);
    if c == v.len() {
        return None;
    }
    let d: usize = run_of_word(&v, c);
    assert(v@.skip(c as int).take(d - c) =~= v@.subrange(c as int, d as int));
    Some(from_chars(&v, c, d))
}

/// Whether a list holds a string of the same characters.
pub fn holds(v: &Vec<String>, s: &str) -> (r: bool)
    ensures
        r == texts(v@).contains(s@),
{
    let mut i: usize = 0;
    while i < v.len()
        invariant
            i <= v.len(),
            forall|j: int| 0 <= j < i ==> (#[trigger] texts(v@)[j]) != s@,
        decreases v.len() - i,
    {
        if same(v[i].as_str(), s) {
            assert(texts(v@)[i as int] == s@);
            return true;
        }
        assert(texts(v@)[i as int] == v@[i as int]@);
        i = i + 1;
    }
    false
}

/// A fresh copy of a list of strings.
pub fn clone_strings(v: &Vec<String>) -> (r: Vec<String>)
    ensures
        r@ == v@,
{
    let mut r: Vec<String> = Vec::new();
    let mut i: usize = 0;
    while i < v.len()
        invariant
            i <= v.len(),
            r@ == v@.take(i as int),
        decreases v.len() - i,
    {
        r.push(v[i].clone());
        i = i + 1;
        assert(v@.take(i as int) =~= v@.take(i - 1).push(v@[i - 1]));
    }
    assert(v@.take(v.len() as int) =~= v@);
    r
}

/// A fresh copy of an optional string.
pub fn clone_opt(o: &Option<String>) -> (r: Option<String>)
    ensures
        r == *o,
{
    match o {
        Some(s) => Some(s.clone()),
        None => None,
    }
}

/// A fresh copy of a list of pairs of strings.
pub fn clone_pairs(v: &Vec<(String, String)>) -> (r: Vec<(String, String)>)
    ensures
        r@ == v@,
{
    let mut r: Vec<(String, String)> = Vec::new();
    let mut i: usize = 0;
    while i < v.len()
        invariant
            i <= v.len(),
            r@ == v@.take(i as int),
        decreases v.len() - i,
    {
        r.push((v[i].0.clone(), v[i].1.clone()));
        i = i + 1;
        assert(v@.take(i as int) =~= v@.take(i - 1).push(v@[i - 1]));
    }
    assert(v@.take(v.len() as int) =~= v@);
    r
}

// ---------------------------------------------------------------------------
// Joining
// ---------------------------------------------------------------------------

/// The two texts one after the other.
pub fn cat2(a: &str, b: &str) -> (s: String)
    ensures
        s@ == a@ + b@,
{
    let mut s = a.to_owned();
    s.append(b);
    s
}

/// The three texts one after the other.
pub fn cat3(a: &str, b: &str, c: &str) -> (s: String)
    ensures
        s@ == a@ + b@ + c@,
{
    let mut s = a.to_owned();
    s.append(b);
    s.append(c);
    s
}

/// The four texts one after the other.
pub fn cat4(a: &str, b: &str, c: &str, d: &str) -> (s: String)
    ensures
        s@ == a@ + b@ + c@ + d@,
{
    let mut s = a.to_owned();
    s.append(b);
    s.append(c);
    s.append(d);
    s
}

/// The five texts one after the other.
pub fn cat5(a: &str, b: &str, c: &str, d: &str, e: &str) -> (s: String)
    ensures
        s@ == a@ + b@ + c@ + d@ + e@,
{
    let mut s = a.to_owned();
    s.append(b);
    s.append(c);
    s.append(d);
    s.append(e);
    s
}

/// The six texts one after the other.
pub fn cat6(a: &str, b: &str, c: &str, d: &str, e: &str, f: &str) -> (s: String)
    ensures
        s@ == a@ + b@ + c@ + d@ + e@ + f@,
{
    let mut s = a.to_owned();
    s.append(b);
    s.append(c);
    s.append(d);
    s.append(e);
    s.append(f);
    s
}

/// The seven texts one after the other.
pub fn cat7(a: &str, b: &str, c: &str, d: &str, e: &str, f: &str, g: &str) -> (s: String)
    ensures
        s@ == a@ + b@ + c@ + d@ + e@ + f@ + g@,
{
    let mut s = a.to_owned();
    s.append(b);
    s.append(c);
    s.append(d);
    s.append(e);
    s.append(f);
    s.append(g);
    s
}

// ---------------------------------------------------------------------------
// Numbers to text
// ---------------------------------------------------------------------------

fn digit_char(d: u8) -> (c: char)
    requires
        d < 16,
    ensures
        c == digit(d as nat),
{
    if d < 10 {
        (48u8 + d) as char
    } else {
        (87u8 + d) as char
    }
}

fn digits_of(n: u128, base: u128) -> (s: String)
    requires
        2 <= base <= 16,
    ensures
        s@ == digits(n as nat, base as nat),
    decreases n,
{
    if n < base {
        let mut s = String::new();
        s.push(digit_char(n as u8));
        assert(s@ =~= digits(n as nat, base as nat));
        s
    } else {
        assert(n / base < n) by (nonlinear_arith)
            requires
                n >= base,
                base >= 2,
        ;
        let mut s = digits_of(n / base, base);
        s.push(digit_char((n % base) as u8));
        s
    }
}

/// The decimal form of `n`.
pub fn decimal(n: u64) -> (s: String)
    ensures
        s@ == dec(n as nat),
{
    digits_of(n as u128, 10)
}

/// The lower-case hexadecimal form of `n`.
pub fn hexadecimal(n: u128) -> (s: String)
    ensures
        s@ == hex(n as nat),
{
    digits_of(n, 16)
}

/// The decimal form of `n`, with a minus sign in front when it is negative.
pub fn decimal_signed(n: i64) -> (s: String)
    ensures
        s@ == dec_int(n as int),
{
    if n < 0 {
        let mut s = String::new();
        s.push('-');
        assert(s@ =~= seq!['-']);
        let magnitude: u128 = (-(n as i128)) as u128;
        let d = digits_of(magnitude, 10);
        s.append(d.as_str());
        s
    } else {
        digits_of(n as u128, 10)
    }
}

/// `s` with zeros in front of it up to `width` characters.
pub fn pad_zeros(s: &str, width: usize) -> (r: String)
    ensures
        r@ == zero_pad(s@, width as nat),
{
    let v = chars(s);
    let mut r = String::new();
    let mut left: usize = if v.len() >= width {
        0
    } else {
        width - v.len()
    };
    let ghost total: nat = left as nat;
    while left > 0
        invariant
            left <= total,
            r@ == Seq::new((total - left) as nat, |i: int| '0'),
        decreases left,
    {
        r.push('0');
        left = left - 1;
        assert(r@ =~= Seq::new((total - left) as nat, |i: int| '0'));
    }
    r.append(s);
    assert(r@ =~= zero_pad(s@, width as nat));
    r
}

// ---------------------------------------------------------------------------
// Searching and cutting
// ---------------------------------------------------------------------------

/// `find` counts how far it has looked: it starts over at any earlier
/// position that holds no match.
proof fn lemma_find_skip(s: Seq<char>, c: char, i: int)
    requires
        0 <= i <= s.len(),
        forall|j: int| 0 <= j < i ==> s[j] != c,
    ensures
        find(s, c) == i + find(s.skip(i), c),
    decreases i,
{
    if i > 0 {
        let t = s.skip(1);
        assert forall|j: int| 0 <= j < i - 1 implies t[j] != c by {
            assert(t[j] == s[j + 1]);
        }
        lemma_find_skip(t, c, i - 1);
        assert(t.skip(i - 1) =~= s.skip(i));
    } else {
        assert(s.skip(0) =~= s);
    }
}

/// What `find` returns: the first position that holds `c`.
pub proof fn lemma_find(s: Seq<char>, c: char)
    ensures
        0 <= find(s, c) <= s.len(),
        find(s, c) < s.len() ==> s[find(s, c)] == c,
        forall|j: int| 0 <= j < find(s, c) ==> s[j] != c,
    decreases s.len(),
{
    if s.len() > 0 && s[0] != c {
        let t = s.skip(1);
        lemma_find(t, c);
        assert forall|j: int| 0 <= j < find(s, c) implies s[j] != c by {
            if j > 0 {
                assert(t[j - 1] == s[j]);
            }
        }
    }
}

/// A text without `c` is the first piece of what it begins.
pub proof fn lemma_split_piece(a: Seq<char>, c: char, rest: Seq<char>)
    requires
        forall|i: int| 0 <= i < a.len() ==> a[i] != c,
    ensures
        split(a.push(c) + rest, c) == seq![a] + split(rest, c),
        split(a, c) == seq![a],
{
    let s = a.push(c) + rest;
    lemma_find(s, c);
    lemma_find(a, c);
    assert(s[a.len() as int] == c);
    if find(s, c) < a.len() {
        assert(s[find(s, c)] == a[find(s, c)]);
    }
    assert(s.take(a.len() as int) =~= a);
    assert(s.skip(a.len() as int + 1) =~= rest);
}

/// The position of the first `c` at or after `from`, or the length.
pub fn find_from(v: &Vec<char>, from: usize, c: char) -> (i: usize)
    requires
        from <= v.len(),
    ensures
        i == from + find(v@.skip(from as int), c),
        from <= i <= v.len(),
        i < v.len() ==> v@[i as int] == c,
        forall|j: int| from <= j < i ==> v@[j] != c,
{
    let mut i: usize = from;
    let ghost tail = v@.skip(from as int);
    while i < v.len() && v[i] != c
        invariant
            from <= i <= v.len(),
            tail == v@.skip(from as int),
            forall|j: int| from <= j < i ==> v@[j] != c,
        decreases v.len() - i,
    {
        i = i + 1;
    }
    proof {
        assert forall|j: int| 0 <= j < i - from implies tail[j] != c by {
            assert(tail[j] == v@[from + j]);
        }
        lemma_find_skip(tail, c, i - from);
        assert(tail.skip(i - from) =~= v@.skip(i as int));
        if i < v.len() {
            assert(v@.skip(i as int)[0] == v@[i as int]);
        }
    }
    i
}

/// The two sides of the first `c` in `s`.
pub fn cut_once(s: &str, c: char) -> (r: Option<(String, String)>)
    ensures
        match (r, split_once(s@, c)) {
            (Some(p), Some(q)) => p.0@ == q.0 && p.1@ == q.1,
            (None, None) => true,
            _ => false,
        },
{
    let v = chars(s);
    let i = find_from(&v, 0, c);
    assert(v@.skip(0) =~= v@);
    if i < v.len() {
        let a = from_chars(&v, 0, i);
        let b = from_chars(&v, i + 1, v.len());
        assert(v@.subrange(0, i as int) =~= v@.take(i as int));
        assert(v@.subrange(i + 1, v@.len() as int) =~= v@.skip(i + 1));
        Some((a, b))
    } else {
        None
    }
}

/// The pieces of `s` between the occurrences of `c`.
pub fn cut(s: &str, c: char) -> (r: Vec<String>)
    ensures
        texts(r@) == split(s@, c),
{
    let v = chars(s);
    let mut r: Vec<String> = Vec::new();
    let mut from: usize = 0;
    assert(v@.skip(0) =~= v@);
    loop
        invariant
            v@ == s@,
            from <= v.len(),
            texts(r@) + split(v@.skip(from as int), c) == split(s@, c),
        decreases v.len() - from,
    {
        let i = find_from(&v, from, c);
        let piece = from_chars(&v, from, i);
        let ghost rest = v@.skip(from as int);
        let ghost before = texts(r@);
        r.push(piece);
        assert(texts(r@) =~= before.push(piece@));
        if i < v.len() {
            assert(piece@ =~= rest.take(i - from));
            assert(rest.skip(i - from + 1) =~= v@.skip(i + 1));
            assert(before + split(rest, c) =~= texts(r@) + split(v@.skip(i + 1), c));
            from = i + 1;
        } else {
            assert(piece@ =~= rest);
            assert(before + split(rest, c) =~= texts(r@));
            return r;
        }
    }
}

/// The two sides of the last `c` in `s`.
pub fn cut_last(s: &str, c: char) -> (r: Option<(String, String)>)
    ensures
        match r {
            Some(p) => {
                &&& 0 <= rfind(s@, c) < s@.len()
                &&& p.0@ == s@.take(rfind(s@, c))
                &&& p.1@ == s@.skip(rfind(s@, c) + 1)
            },
            None => rfind(s@, c) == -1,
        },
{
    let v = chars(s);
    let mut i: usize = v.len();
    assert(v@.take(v.len() as int) =~= v@);
    while i > 0 && v[i - 1] != c
        invariant
            i <= v.len(),
            rfind(v@, c) == rfind(v@.take(i as int), c),
        decreases i,
    {
        i = i - 1;
        assert(v@.take(i + 1).drop_last() =~= v@.take(i as int));
    }
    if i > 0 {
        let a = from_chars(&v, 0, i - 1);
        let b = from_chars(&v, i, v.len());
        assert(v@.subrange(0, i - 1) =~= v@.take(i - 1));
        assert(v@.subrange(i as int, v@.len() as int) =~= v@.skip(i as int));
        Some((a, b))
    } else {
        None
    }
}

/// Whether `p` stands in `v` at `i`.
fn matches_at(v: &Vec<char>, p: &Vec<char>, i: usize) -> (r: bool)
    requires
        i + p.len() <= v.len(),
    ensures
        r == stands_at(v@, p@, i as int),
{
    let mut k: usize = 0;
    while k < p.len()
        invariant
            k <= p.len(),
            i + p.len() <= v.len(),
            forall|j: int| 0 <= j < k ==> v@[i + j] == #[trigger] p@[j],
        decreases p.len() - k,
    {
        if v[i + k] != p[k] {
            assert(v@.subrange(i as int, i + p.len())[k as int] == v@[i + k]);
            return false;
        }
        k = k + 1;
    }
    assert(v@.subrange(i as int, i + p.len()) =~= p@);
    true
}

/// What follows the first `p` in `s`.
pub fn cut_after(s: &str, p: &str) -> (r: Option<String>)
    ensures
        opt_text(r) == after_text(s@, p@),
{
    let v = chars(s);
    let q = chars(p);
    if q.len() > v.len() {
        return None;
    }
    let mut i: usize = 0;
    while i <= v.len() - q.len()
        invariant
            v@ == s@,
            q@ == p@,
            q.len() <= v.len(),
            i <= v.len() - q.len() + 1,
            find_text(v@, q@, 0) == find_text(v@, q@, i as int),
        decreases v.len() - i,
    {
        if matches_at(&v, &q, i) {
            let rest = from_chars(&v, i + q.len(), v.len());
            assert(v@.subrange(i + q.len(), v@.len() as int) =~= v@.skip(i + q.len()));
            return Some(rest);
        }
        if i == v.len() - q.len() {
            assert(find_text(v@, q@, i + 1) == -1);
            return None;
        }
        i = i + 1;
    }
    None
}

/// Whether `s` begins with `p`.
pub fn begins_with(s: &str, p: &str) -> (r: bool)
    ensures
        r == p@.is_prefix_of(s@),
{
    let v = chars(s);
    let w = chars(p);
    if w.len() > v.len() {
        return false;
    }
    let mut i: usize = 0;
    while i < w.len()
        invariant
            i <= w.len() <= v.len(),
            v@ == s@,
            w@ == p@,
            forall|j: int| 0 <= j < i ==> v@[j] == w@[j],
        decreases w.len() - i,
    {
        if v[i] != w[i] {
            assert(p@ != s@.subrange(0, p@.len() as int)) by {
                assert(p@[i as int] != s@.subrange(0, p@.len() as int)[i as int]);
            }
            return false;
        }
        i = i + 1;
    }
    assert(p@ =~= s@.subrange(0, p@.len() as int));
    true
}

/// `s` from the character at `n` on.
pub fn drop_chars(s: &str, n: usize) -> (r: String)
    requires
        n <= s@.len(),
    ensures
        r@ == s@.skip(n as int),
{
    let v = chars(s);
    let r = from_chars(&v, n, v.len());
    assert(v@.subrange(n as int, v@.len() as int) =~= v@.skip(n as int));
    r
}

fn white(c: char) -> (r: bool)
    ensures
        r == is_white(c),
{
    let u: u32 = c as u32;
    (9 <= u && u <= 13) || u == 0x20 || u == 0x85 || u == 0xa0 || u == 0x1680 || (0x2000 <= u
        && u <= 0x200a) || u == 0x2028 || u == 0x2029 || u == 0x202f || u == 0x205f || u == 0x3000
}

/// `s` without white space at either end.
pub fn trimmed(s: &str) -> (r: String)
    ensures
        r@ == trim(s@),
{
    let v = chars(s);
    let mut a: usize = 0;
    assert(v@.skip(0) =~= v@);
    while a < v.len() && white(v[a])
        invariant
            a <= v.len(),
            trim_start(v@) == trim_start(v@.skip(a as int)),
        decreases v.len() - a,
    {
        assert(v@.skip(a as int)[0] == v@[a as int]);
        a = a + 1;
        assert(v@.skip(a - 1).skip(1) =~= v@.skip(a as int));
    }
    let ghost head = v@.skip(a as int);
    assert(trim_start(v@) == head) by {
        if a < v.len() {
            assert(head[0] == v@[a as int]);
        }
    }
    let mut b: usize = v.len();
    assert(v@.subrange(a as int, b as int) =~= head);
    while b > a && white(v[b - 1])
        invariant
            a <= b <= v.len(),
            head == v@.skip(a as int),
            trim_end(head) == trim_end(v@.subrange(a as int, b as int)),
        decreases b,
    {
        assert(v@.subrange(a as int, b as int).last() == v@[b - 1]);
        b = b - 1;
        assert(v@.subrange(a as int, b + 1).drop_last() =~= v@.subrange(a as int, b as int));
    }
    assert(trim_end(head) == v@.subrange(a as int, b as int)) by {
        if b > a {
            assert(v@.subrange(a as int, b as int).last() == v@[b - 1]);
        }
    }
    from_chars(&v, a, b)
}

/// `s` without the trailing occurrences of `c`.
pub fn trimmed_end_char(s: &str, c: char) -> (r: String)
    ensures
        r@ == trim_end_char(s@, c),
{
    let v = chars(s);
    let mut b: usize = v.len();
    assert(v@.subrange(0, b as int) =~= v@);
    while b > 0 && v[b - 1] == c
        invariant
            b <= v.len(),
            trim_end_char(v@, c) == trim_end_char(v@.subrange(0, b as int), c),
        decreases b,
    {
        assert(v@.subrange(0, b as int).last() == v@[b - 1]);
        b = b - 1;
        assert(v@.subrange(0, b + 1).drop_last() =~= v@.subrange(0, b as int));
    }
    assert(trim_end_char(v@, c) == v@.subrange(0, b as int)) by {
        if b > 0 {
            assert(v@.subrange(0, b as int).last() == v@[b - 1]);
        }
    }
    from_chars(&v, 0, b)
}

// ---------------------------------------------------------------------------
// Letter case
// ---------------------------------------------------------------------------

fn lowered(c: char) -> (r: char)
    ensures
        r == lower_char(c),
{
    if 'A' <= c && c <= 'Z' {
        let u: u8 = c as u8;
        (u + 32) as char
    } else {
        c
    }
}

/// ASCII lower case of `s`.
pub fn ascii_lower(s: &str) -> (r: String)
    ensures
        r@ == lower(s@),
{
    let v = chars(s);
    let mut r = String::new();
    let mut i: usize = 0;
    while i < v.len()
        invariant
            i <= v.len(),
            r@ == lower(v@.take(i as int)),
        decreases v.len() - i,
    {
        r.push(lowered(v[i]));
        i = i + 1;
        assert(r@ =~= lower(v@.take(i as int)));
    }
    assert(v@.take(v.len() as int) =~= v@);
    r
}

/// Whether two strings are equal up to ASCII letter case.
pub fn same_ignoring_case(a: &str, b: &str) -> (r: bool)
    ensures
        r == (lower(a@) == lower(b@)),
{
    ascii_lower(a) == ascii_lower(b)
}

// ---------------------------------------------------------------------------
// Order
// ---------------------------------------------------------------------------

/// Whether a text comes before another in the order of the dictionary, by
/// the code points of the characters.
pub open spec fn precedes(a: Seq<char>, b: Seq<char>) -> bool
    decreases a.len(),
{
    if b.len() == 0 {
        false
    } else if a.len() == 0 {
        true
    } else if a[0] != b[0] {
        a[0] < b[0]
    } else {
        precedes(a.skip(1), b.skip(1))
    }
}

/// Of two different texts one comes before the other, and only one.
pub proof fn lemma_precedes_total(a: Seq<char>, b: Seq<char>)
    ensures
        a == b || precedes(a, b) || precedes(b, a),
        !(precedes(a, b) && precedes(b, a)),
        !precedes(a, a),
    decreases a.len(),
{
    if a.len() > 0 && b.len() > 0 {
        lemma_precedes_total(a.skip(1), b.skip(1));
        if a[0] == b[0] && a.skip(1) == b.skip(1) {
            assert(a =~= seq![a[0]] + a.skip(1));
            assert(b =~= seq![a[0]] + a.skip(1)) by {
                assert(b =~= seq![b[0]] + b.skip(1));
            }
        }
    } else if a.len() == 0 && b.len() == 0 {
        assert(a =~= b);
    }
    if a.len() > 0 {
        lemma_precedes_total(a.skip(1), a.skip(1));
    }
}

/// What comes before a text comes before all that the text comes before.
pub proof fn lemma_precedes_transitive(a: Seq<char>, b: Seq<char>, c: Seq<char>)
    requires
        precedes(a, b),
        precedes(b, c),
    ensures
        precedes(a, c),
    decreases a.len(),
{
    if a.len() > 0 && a[0] == b[0] && b[0] == c[0] {
        lemma_precedes_transitive(a.skip(1), b.skip(1), c.skip(1));
    }
}

/// Whether a text comes before another in the order of the dictionary.
pub fn comes_before(a: &str, b: &str) -> (r: bool)
    ensures
        r == precedes(a@, b@),
{
    let x = chars(a);
    let y = chars(b);
    let mut i: usize = 0;
    assert(x@.skip(0) =~= x@);
    assert(y@.skip(0) =~= y@);
    while i < x.len() && i < y.len() && x[i] == y[i]
        invariant
            i <= x.len(),
            i <= y.len(),
            precedes(x@, y@) == precedes(x@.skip(i as int), y@.skip(i as int)),
        decreases x.len() - i,
    {
        assert(x@.skip(i as int)[0] == x@[i as int]);
        assert(y@.skip(i as int)[0] == y@[i as int]);
        assert(x@.skip(i as int).skip(1) =~= x@.skip(i + 1));
        assert(y@.skip(i as int).skip(1) =~= y@.skip(i + 1));
        i = i + 1;
    }
    if i == y.len() {
        false
    } else if i == x.len() {
        true
    } else {
        assert(x@.skip(i as int)[0] == x@[i as int]);
        assert(y@.skip(i as int)[0] == y@[i as int]);
        x[i] < y[i]
    }
}

// ---------------------------------------------------------------------------
// Text to numbers
// ---------------------------------------------------------------------------

/// A longer numeral stands for a value at least as large.
proof fn lemma_digits_value_grows(s: Seq<char>, n: int)
    requires
        all_digits(s),
        0 <= n <= s.len(),
    ensures
        digits_value(s.take(n)) <= digits_value(s),
    decreases s.len() - n,
{
    if n < s.len() {
        lemma_digits_value_grows(s, n + 1);
        assert(s.take(n + 1).drop_last() =~= s.take(n));
        assert('0' <= s[n] <= '9');
    } else {
        assert(s.take(n) =~= s);
    }
}

/// The number that `s` stands for, if it is a decimal numeral of at most
/// `max`.
pub fn parse_number(s: &str, max: u64) -> (r: Option<u64>)
    ensures
        match (r, parse_max(s@, max as nat)) {
            (Some(n), Some(m)) => n == m,
            (None, None) => true,
            _ => false,
        },
{
    let v = chars(s);
    let from: usize = if v.len() > 0 && v[0] == '+' {
        1
    } else {
        0
    };
    let ghost d = v@.skip(from as int);
    assert(from == 0 ==> d =~= v@);
    if from == v.len() {
        return None;
    }
    let mut i: usize = from;
    let mut n: u64 = 0;
    let mut over = false;
    while i < v.len()
        invariant
            from <= i <= v.len(),
            v@ == s@,
            from == (if s@.len() > 0 && s@[0] == '+' { 1int } else { 0int }),
            d == v@.skip(from as int),
            from == 0 ==> d == v@,
            forall|j: int| 0 <= j < i - from ==> '0' <= #[trigger] d[j] <= '9',
            !over ==> n == digits_value(d.take(i - from)) && n <= max,
            over ==> digits_value(d.take(i - from)) > max,
        decreases v.len() - i,
    {
        let c = v[i];
        assert(d[i - from] == c);
        if !('0' <= c && c <= '9') {
            assert(!all_digits(d));
            return None;
        }
        assert(d.take(i - from + 1).drop_last() =~= d.take(i - from));
        assert(d.take(i - from + 1).last() == c);
        let digit: u64 = (c as u64) - 48;
        if !over {
            let next: u128 = n as u128 * 10 + digit as u128;
            if next > max as u128 {
                over = true;
            } else {
                n = next as u64;
            }
        }
        i = i + 1;
    }
    assert(d.take(v.len() - from) =~= d);
    if over {
        None
    } else {
        Some(n)
    }
}

/// The text of the error that `String::from_utf8` gives for bytes that are
/// not UTF-8.
pub uninterp spec fn utf8_error(bytes: Seq<u8>) -> Seq<char>;

/// `String::from_utf8`: the text that the bytes encode, or the text of the
/// error where they are not UTF-8.
#[verifier::external_body]
pub(crate) fn utf8_text(bytes: Vec<u8>) -> (r: Result<String, String>)
    ensures
        match r {
            Ok(s) => vstd::utf8::valid_utf8(bytes@) && s@ == vstd::utf8::decode_utf8(bytes@),
            Err(e) => !vstd::utf8::valid_utf8(bytes@) && e@ == utf8_error(bytes@),
        },
{
    String::from_utf8(bytes).map_err(|e| e.to_string())
}

/// What `str::to_uppercase` makes of a text.
pub uninterp spec fn upper_text(s: Seq<char>) -> Seq<char>;

/// `str::to_uppercase` of a text: the upper-case mapping of Unicode, which on
/// ASCII text is the ASCII one.
#[verifier::external_body]
pub(crate) fn uppercase(s: &str) -> (r: String)
    ensures
        r@ == upper_text(s@),
        all_ascii(s@) ==> r@ == upper(s@),
{
    s.to_uppercase()
}

/// The text of the error that `str::parse` gives for a text that is no
/// number of the type `u64`.
pub uninterp spec fn number_error(s: Seq<char>) -> Seq<char>;

/// `str::parse` of a text into a `u64`: decimal digits with at most one plus
/// sign in front, of a value that fits; otherwise the text of the error.
#[verifier::external_body]
pub(crate) fn parse_u64(s: &str) -> (r: Result<u64, String>)
    ensures
        match r {
            Ok(n) => parse_max(s@, u64::MAX as nat) == Some(n as nat),
            Err(e) => parse_max(s@, u64::MAX as nat) is None && e@ == number_error(s@),
        },
{
    s.parse::<u64>().map_err(|e| e.to_string())
}

} // verus!
