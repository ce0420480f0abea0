//! Text operations on `str` and `String`, stated over character sequences.

use vstd::prelude::*;
use vstd::string::*;

verus! {

/// `String::push` of std: appends one character.
pub assume_specification[ String::push ](s: &mut String, c: char)
    ensures
        final(s)@ == old(s)@.push(c),
;

/// The character of a decimal digit.
pub open spec fn digit(d: int) -> char {
    (48 + d) as char
}

/// The decimal notation of a number.
pub open spec fn decimal(n: int) -> Seq<char>
    decreases n,
{
    if n < 0 {
        seq!['-'] + decimal_abs(-n)
    } else {
        decimal_abs(n)
    }
}

/// The decimal notation of a non-negative number.
pub open spec fn decimal_abs(n: int) -> Seq<char>
    decreases n,
{
    if n < 10 {
        seq![digit(n)]
    } else {
        decimal_abs(n / 10).push(digit(n % 10))
    }
}

fn digit_char(d: u64) -> (r: char)
    requires
        d < 10,
    ensures
        r == digit(d as int),
{
    match d {
        0 => '0',
        1 => '1',
        2 => '2',
        3 => '3',
        4 => '4',
        5 => '5',
        6 => '6',
        7 => '7',
        8 => '8',
        _ => '9',
    }
}

/// Appends the decimal notation of `n`.
pub fn push_decimal(out: &mut String, n: u64)
    ensures
        final(out)@ == old(out)@ + decimal(n as int),
    decreases n,
{
    let ghost before = out@;
    if n < 10 {
        out.push(digit_char(n));
        assert(out@ =~= before + decimal(n as int));
    } else {
        push_decimal(out, n / 10);
        out.push(digit_char(n % 10));
        assert(out@ =~= before + decimal(n as int));
    }
}

/// The decimal notation of `n`.
pub fn unsigned_text(n: u64) -> (r: String)
    ensures
        r@ == decimal(n as int),
{
    let mut out = String::new();
    push_decimal(&mut out, n);
    assert(out@ =~= decimal(n as int));
    out
}

/// The decimal notation of `n`.
pub fn signed_text(n: i64) -> (r: String)
    ensures
        r@ == decimal(n as int),
{
    if n < 0 {
        let mut out = String::new();
        out.push('-');
        let magnitude: u64 = (-(n as i128)) as u64;
        push_decimal(&mut out, magnitude);
        assert(out@ =~= decimal(n as int));
        out
    } else {
        unsigned_text(n as u64)
    }
}

/// Whether two texts are the same.
pub fn str_eq(a: &str, b: &str) -> (r: bool)
    ensures
        r == (a@ == b@),
{
    broadcast use vstd::utf8::encode_utf8_decode_utf8;

    let x = a.as_bytes();
    let y = b.as_bytes();
    if x.len() != y.len() {
        return false;
    }
    let mut i: usize = 0;
    while i < x.len()
        invariant
            x@ == a.spec_bytes(),
            y@ == b.spec_bytes(),
            x@.len() == y@.len(),
            i <= x@.len(),
            forall|k: int| 0 <= k < i ==> x@[k] == y@[k],
        decreases x@.len() - i,
    {
        if x[i] != y[i] {
            return false;
        }
        i += 1;
    }
    assert(x@ =~= y@);
    assert(vstd::utf8::decode_utf8(a.spec_bytes()) == a@);
    assert(vstd::utf8::decode_utf8(b.spec_bytes()) == b@);
    true
}

/// `a` followed by `b`.
pub fn cat(a: &str, b: &str) -> (r: String)
    ensures
        r@ == a@ + b@,
{
    let mut out = String::from_str(a);
    out.append(b);
    out
}

/// `a`, `b` and `c` in a row.
pub fn cat3(a: &str, b: &str, c: &str) -> (r: String)
    ensures
        r@ == a@ + b@ + c@,
{
    let mut out = String::from_str(a);
    out.append(b);
    out.append(c);
    out
}

/// The characters of a text.
pub fn chars_of(s: &str) -> (r: Vec<char>)
    ensures
        r@ == s@,
{
    let mut out: Vec<char> = Vec::new();
    for c in it: s.chars()
        invariant
            out@ == it.seq().take(it.index() as int),
            it.seq() == s@,
    {
        assert(it.seq().take(it.index() as int + 1) =~= it.seq().take(it.index() as int).push(c));
        out.push(c);
    }
    assert(s@.take(s@.len() as int) =~= s@);
    out
}

/// Appends characters to a text.
pub fn push_chars(out: &mut String, chars: &Vec<char>)
    ensures
        final(out)@ == old(out)@ + chars@,
{
    let ghost before = out@;
    let mut i: usize = 0;
    assert(before + chars@.take(0) =~= before);
    while i < chars.len()
        invariant
            i <= chars@.len(),
            out@ == before + chars@.take(i as int),
        decreases chars@.len() - i,
    {
        out.push(chars[i]);
        assert(before + chars@.take(i as int + 1) =~= (before + chars@.take(i as int)).push(
            chars@[i as int],
        ));
        i += 1;
    }
    assert(chars@.take(i as int) =~= chars@);
}

/// The text made of some characters.
pub fn string_of(chars: &Vec<char>) -> (r: String)
    ensures
        r@ == chars@,
{
    let mut out = String::new();
    push_chars(&mut out, chars);
    assert(out@ =~= chars@);
    out
}

/// Whether `s` begins with `p`.
pub fn starts_with(s: &str, p: &str) -> (r: bool)
    ensures
        r == p@.is_prefix_of(s@),
{
    let n: usize = p.unicode_len();
    if n > s.unicode_len() {
        return false;
    }
    str_eq(s.substring_char(0, n), p)
}

/// Whether `s` ends with `p`.
pub fn ends_with(s: &str, p: &str) -> (r: bool)
    ensures
        r == p@.is_suffix_of(s@),
{
    let n: usize = p.unicode_len();
    let m: usize = s.unicode_len();
    if n > m {
        return false;
    }
    str_eq(s.substring_char(m - n, m), p)
}

/// `s` without its prefix `p`.
pub fn strip_prefix<'a>(s: &'a str, p: &str) -> (r: Option<&'a str>)
    ensures
        match r {
            Some(rest) => p@.is_prefix_of(s@) && rest@ == s@.skip(p@.len() as int),
            None => !p@.is_prefix_of(s@),
        },
{
    if starts_with(s, p) {
        let n: usize = p.unicode_len();
        let m: usize = s.unicode_len();
        let rest = s.substring_char(n, m);
        assert(rest@ =~= s@.skip(p@.len() as int));
        Some(rest)
    } else {
        None
    }
}

/// `s` without its suffix `p`.
pub fn strip_suffix<'a>(s: &'a str, p: &str) -> (r: Option<&'a str>)
    ensures
        match r {
            Some(rest) => p@.is_suffix_of(s@) && rest@ == s@.take(s@.len() - p@.len()),
            None => !p@.is_suffix_of(s@),
        },
{
    if ends_with(s, p) {
        let n: usize = p.unicode_len();
        let m: usize = s.unicode_len();
        let rest = s.substring_char(0, m - n);
        assert(rest@ =~= s@.take(s@.len() - p@.len()));
        Some(rest)
    } else {
        None
    }
}

/// Whether `p` stands in `s` at index `i`.
pub open spec fn occurs_at(p: Seq<char>, s: Seq<char>, i: int) -> bool {
    0 <= i && i + p.len() <= s.len() && s.subrange(i, i + p.len()) == p
}

/// Whether `p` stands anywhere in `s`.
pub open spec fn occurs_in(p: Seq<char>, s: Seq<char>) -> bool {
    exists|i: int| occurs_at(p, s, i)
}

fn matches_at(s: &Vec<char>, p: &Vec<char>, i: usize) -> (r: bool)
    requires
        i <= s@.len(),
    ensures
        r == occurs_at(p@, s@, i as int),
{
    if s.len() - i < p.len() {
        return false;
    }
    let mut k: usize = 0;
    while k < p.len()
        invariant
            k <= p@.len(),
            i + p.len() <= s.len(),
            forall|j: int| 0 <= j < k ==> s@[i + j] == p@[j],
        decreases p@.len() - k,
    {
        if s[i + k] != p[k] {
            assert(s@.subrange(i as int, i + p@.len())[k as int] != p@[k as int]);
            return false;
        }
        k += 1;
    }
    assert(s@.subrange(i as int, i + p@.len()) =~= p@);
    true
}

/// Whether `p` stands anywhere in `s`.
pub fn contains(s: &str, p: &str) -> (r: bool)
    ensures
        r == occurs_in(p@, s@),
{
    let sv = chars_of(s);
    let pv = chars_of(p);
    let mut i: usize = 0;
    while i < sv.len()
        invariant
            sv@ == s@,
            pv@ == p@,
            i <= sv@.len(),
            forall|j: int| 0 <= j < i ==> !occurs_at(p@, s@, j),
        decreases sv@.len() - i,
    {
        if matches_at(&sv, &pv, i) {
            return true;
        }
        i += 1;
    }
    let at_end = matches_at(&sv, &pv, i);
    assert forall|j: int| occurs_at(p@, s@, j) implies at_end by {
        if j == i {
        } else {
            assert(0 <= j < i);
        }
    }
    at_end
}

/// `s` with every occurrence of `p` taken out, searched from the left, each
/// search starting behind the occurrence before it.
pub open spec fn without(s: Seq<char>, p: Seq<char>) -> Seq<char>
    decreases s.len(),
{
    if p.len() == 0 || s.len() < p.len() {
        s
    } else if p.is_prefix_of(s) {
        without(s.skip(p.len() as int), p)
    } else {
        seq![s[0]] + without(s.skip(1), p)
    }
}

/// `s` with every occurrence of `p` taken out.
pub fn remove_all(s: &Vec<char>, p: &str) -> (r: Vec<char>)
    ensures
        r@ == without(s@, p@),
{
    let pv = chars_of(p);
    let mut out: Vec<char> = Vec::new();
    let mut i: usize = 0;
    assert(s@.skip(0) =~= s@);
    assert(out@ + without(s@, p@) =~= without(s@, p@));
    while i < s.len() && pv.len() > 0 && s.len() - i >= pv.len()
        invariant
            i <= s@.len(),
            pv@ == p@,
            out@ + without(s@.skip(i as int), p@) == without(s@, p@),
        decreases s@.len() - i,
    {
        let ghost rest = s@.skip(i as int);
        let ghost n = pv@.len() as int;
        assert(rest.subrange(0, n) =~= s@.subrange(i as int, i + n));
        if matches_at(s, &pv, i) {
            assert(rest.skip(n) =~= s@.skip(i + n));
            i += pv.len();
        } else {
            assert(rest.skip(1) =~= s@.skip(i + 1));
            assert(rest[0] == s@[i as int]);
            let ghost before = out@;
            out.push(s[i]);
            assert(before + (seq![rest[0]] + without(rest.skip(1), p@)) =~= out@ + without(
                rest.skip(1),
                p@,
            ));
            i += 1;
        }
    }
    let ghost at = i;
    let ghost kept = out@;
    assert(without(s@.skip(at as int), p@) == s@.skip(at as int));
    while i < s.len()
        invariant
            at <= i <= s@.len(),
            out@ == kept + s@.subrange(at as int, i as int),
        decreases s@.len() - i,
    {
        out.push(s[i]);
        assert(kept + s@.subrange(at as int, i + 1) =~= (kept + s@.subrange(
            at as int,
            i as int,
        )).push(s@[i as int]));
        i += 1;
    }
    assert(s@.subrange(at as int, s@.len() as int) =~= s@.skip(at as int));
    out
}

/// Taking a text out of one that does not hold it changes nothing.
pub proof fn lemma_without_absent(s: Seq<char>, p: Seq<char>)
    requires
        !occurs_in(p, s),
    ensures
        without(s, p) == s,
    decreases s.len(),
{
    if p.len() == 0 || s.len() < p.len() {
    } else {
        assert(!occurs_at(p, s, 0));
        assert forall|i: int| !occurs_at(p, s.skip(1), i) by {
            if occurs_at(p, s.skip(1), i) {
                assert(s.skip(1).subrange(i, i + p.len()) =~= s.subrange(i + 1, i + 1 + p.len()));
                assert(occurs_at(p, s, i + 1));
            }
        }
        lemma_without_absent(s.skip(1), p);
        assert(seq![s[0]] + s.skip(1) =~= s);
    }
}

/// Taking a text out never lengthens what it is taken out of; where the length
/// stays, nothing was taken out, and there was nothing to take.
pub proof fn lemma_without_shortens(s: Seq<char>, p: Seq<char>)
    requires
        p.len() > 0,
    ensures
        without(s, p).len() <= s.len(),
        without(s, p).len() == s.len() ==> without(s, p) == s && !occurs_in(p, s),
    decreases s.len(),
{
    if s.len() < p.len() {
        assert forall|i: int| !occurs_at(p, s, i) by {}
    } else if p.is_prefix_of(s) {
        lemma_without_shortens(s.skip(p.len() as int), p);
    } else {
        let rest = s.skip(1);
        lemma_without_shortens(rest, p);
        if without(s, p).len() == s.len() {
            assert(seq![s[0]] + rest =~= s);
            assert forall|i: int| !occurs_at(p, s, i) by {
                if occurs_at(p, s, i) {
                    if i == 0 {
                        assert(s.subrange(0, p.len() as int) =~= p);
                    } else {
                        assert(rest.subrange(i - 1, i - 1 + p.len()) =~= s.subrange(
                            i,
                            i + p.len(),
                        ));
                        assert(occurs_at(p, rest, i - 1));
                    }
                }
            }
        }
    }
}

/// `s` with every occurrence of `p` replaced by `r`, searched from the left,
/// each search starting behind the occurrence before it.
pub open spec fn substituted(s: Seq<char>, p: Seq<char>, r: Seq<char>) -> Seq<char>
    decreases s.len(),
{
    if p.len() == 0 || s.len() < p.len() {
        s
    } else if p.is_prefix_of(s) {
        r + substituted(s.skip(p.len() as int), p, r)
    } else {
        seq![s[0]] + substituted(s.skip(1), p, r)
    }
}

/// `s` with every occurrence of `p` replaced by `by`.
pub fn replace_all(s: &str, p: &str, by: &str) -> (r: String)
    ensures
        r@ == substituted(s@, p@, by@),
{
    let sv = chars_of(s);
    let pv = chars_of(p);
    let bv = chars_of(by);
    let mut out = String::new();
    let mut i: usize = 0;
    assert(s@.skip(0) =~= s@);
    assert(out@ + substituted(s@, p@, by@) =~= substituted(s@, p@, by@));
    while i < sv.len() && pv.len() > 0 && sv.len() - i >= pv.len()
        invariant
            i <= sv@.len(),
            sv@ == s@,
            pv@ == p@,
            bv@ == by@,
            out@ + substituted(s@.skip(i as int), p@, by@) == substituted(s@, p@, by@),
        decreases sv@.len() - i,
    {
        let ghost rest = s@.skip(i as int);
        let ghost n = pv@.len() as int;
        let ghost before = out@;
        assert(rest.subrange(0, n) =~= s@.subrange(i as int, i + n));
        if matches_at(&sv, &pv, i) {
            assert(rest.skip(n) =~= s@.skip(i + n));
            push_chars(&mut out, &bv);
            assert(before + (by@ + substituted(rest.skip(n), p@, by@)) =~= out@ + substituted(
                rest.skip(n),
                p@,
                by@,
            ));
            i += pv.len();
        } else {
            assert(rest.skip(1) =~= s@.skip(i + 1));
            assert(rest[0] == s@[i as int]);
            out.push(sv[i]);
            assert(before + (seq![rest[0]] + substituted(rest.skip(1), p@, by@)) =~= out@
                + substituted(rest.skip(1), p@, by@));
            i += 1;
        }
    }
    let ghost at = i;
    let ghost kept = out@;
    assert(substituted(s@.skip(at as int), p@, by@) == s@.skip(at as int));
    assert(kept + s@.subrange(at as int, at as int) =~= kept);
    while i < sv.len()
        invariant
            sv@ == s@,
            at <= i <= sv@.len(),
            out@ == kept + s@.subrange(at as int, i as int),
        decreases sv@.len() - i,
    {
        out.push(sv[i]);
        assert(kept + s@.subrange(at as int, i + 1) =~= (kept + s@.subrange(
            at as int,
            i as int,
        )).push(s@[i as int]));
        i += 1;
    }
    assert(s@.subrange(at as int, s@.len() as int) =~= s@.skip(at as int));
    out
}

/// Characters with the Unicode `White_Space` property.
pub open spec fn is_white(c: char) -> bool {
    let u = c as int;
    ||| 0x9 <= u <= 0xd
    ||| u == 0x20
    ||| u == 0x85
    ||| u == 0xa0
    ||| u == 0x1680
    ||| 0x2000 <= u <= 0x200a
    ||| u == 0x2028
    ||| u == 0x2029
    ||| u == 0x202f
    ||| u == 0x205f
    ||| u == 0x3000
}

fn white(c: char) -> (r: bool)
    ensures
        r == is_white(c),
{
    let u: u32 = c as u32;
    (0x9 <= u && u <= 0xd) || u == 0x20 || u == 0x85 || u == 0xa0 || u == 0x1680 || (0x2000 <= u
        && u <= 0x200a) || u == 0x2028 || u == 0x2029 || u == 0x202f || u == 0x205f || u == 0x3000
}

/// `s` without the white space at its beginning.
pub open spec fn trim_front(s: Seq<char>) -> Seq<char>
    decreases s.len(),
{
    if s.len() > 0 && is_white(s[0]) {
        trim_front(s.skip(1))
    } else {
        s
    }
}

/// `s` without the white space at its end.
pub open spec fn trim_back(s: Seq<char>) -> Seq<char>
    decreases s.len(),
{
    if s.len() > 0 && is_white(s.last()) {
        trim_back(s.drop_last())
    } else {
        s
    }
}

/// `s` without the white space at both ends.
pub open spec fn trimmed(s: Seq<char>) -> Seq<char> {
    trim_back(trim_front(s))
}

/// The characters of `s` without the white space at both ends.
pub fn trim_chars(s: &str) -> (r: Vec<char>)
    ensures
        r@ == trimmed(s@),
{
    let all = chars_of(s);
    let mut lo: usize = 0;
    assert(s@.skip(0) =~= s@);
    while lo < all.len() && white(all[lo])
        invariant
            all@ == s@,
            lo <= all@.len(),
            trim_front(s@.skip(lo as int)) == trim_front(s@),
        decreases all@.len() - lo,
    {
        assert(s@.skip(lo as int).skip(1) =~= s@.skip(lo + 1));
        lo += 1;
    }
    let ghost front = s@.skip(lo as int);
    assert(trim_front(front) == front);
    let mut hi: usize = all.len();
    assert(s@.subrange(lo as int, hi as int) =~= front);
    while hi > lo && white(all[hi - 1])
        invariant
            all@ == s@,
            lo <= hi <= all@.len(),
            trim_back(s@.subrange(lo as int, hi as int)) == trim_back(front),
        decreases hi,
    {
        assert(s@.subrange(lo as int, hi as int).drop_last() =~= s@.subrange(lo as int, hi - 1));
        hi -= 1;
    }
    let mut out: Vec<char> = Vec::new();
    let mut i: usize = lo;
    while i < hi
        invariant
            all@ == s@,
            lo <= i <= hi <= all@.len(),
            out@ == s@.subrange(lo as int, i as int),
        decreases hi - i,
    {
        out.push(all[i]);
        assert(s@.subrange(lo as int, i + 1) =~= s@.subrange(lo as int, i as int).push(
            s@[i as int],
        ));
        i += 1;
    }
    out
}

/// An ASCII capital letter in lower case; any other character itself.
pub open spec fn lower_char(c: char) -> char {
    if 'A' <= c <= 'Z' {
        (c as int + 32) as char
    } else {
        c
    }
}

/// `s` with ASCII capital letters in lower case.
pub open spec fn lowered(s: Seq<char>) -> Seq<char> {
    Seq::new(s.len(), |i: int| lower_char(s[i]))
}

/// Whether `s`, ASCII letters in lower case, is `word`.
pub fn equals_lowered(s: &Vec<char>, word: &str) -> (r: bool)
    ensures
        r == (lowered(s@) == word@),
{
    let w = chars_of(word);
    if w.len() != s.len() {
        assert(lowered(s@).len() == s@.len());
        return false;
    }
    let mut i: usize = 0;
    while i < s.len()
        invariant
            w@ == word@,
            w@.len() == s@.len(),
            i <= s@.len(),
            forall|k: int| 0 <= k < i ==> lower_char(s@[k]) == w@[k],
        decreases s@.len() - i,
    {
        let c: char = s[i];
        let same: bool = if 'A' <= c && c <= 'Z' {
            (c as u8 + 32) as char == w[i]
        } else {
            c == w[i]
        };
        if !same {
            assert(lowered(s@)[i as int] == lower_char(s@[i as int]));
            return false;
        }
        i += 1;
    }
    assert(lowered(s@) =~= word@);
    true
}

/// The number that decimal digits stand for; `None` where a character is no
/// digit.
pub open spec fn digits_value(s: Seq<char>) -> Option<int>
    decreases s.len(),
{
    if s.len() == 0 {
        Some(0)
    } else {
        match digits_value(s.drop_last()) {
            None => None,
            Some(v) => if '0' <= s.last() <= '9' {
                Some(v * 10 + (s.last() as int - 48))
            } else {
                None
            },
        }
    }
}

/// The unsigned number that a text stands for: digits, a plus sign before them
/// allowed, at least one digit, at most `max`.
pub open spec fn parse_unsigned(s: Seq<char>, max: int) -> Option<int> {
    let digits = if s.len() > 0 && s[0] == '+' {
        s.skip(1)
    } else {
        s
    };
    if digits.len() == 0 {
        None
    } else {
        match digits_value(digits) {
            Some(v) if v <= max => Some(v),
            _ => None,
        }
    }
}

proof fn lemma_digits_value_grows(s: Seq<char>, n: int)
    requires
        0 <= n <= s.len(),
        digits_value(s) is Some,
    ensures
        digits_value(s.take(n)) is Some,
        0 <= digits_value(s.take(n))->0 <= digits_value(s)->0,
    decreases s.len(),
{
    if n == s.len() {
        assert(s.take(n) =~= s);
        if s.len() > 0 {
            lemma_digits_value_grows(s.drop_last(), n - 1);
        }
    } else {
        lemma_digits_value_grows(s.drop_last(), n);
        assert(s.drop_last().take(n) =~= s.take(n));
    }
}

/// The unsigned number that a text stands for.
pub fn parse_unsigned_chars(s: &Vec<char>, max: u64) -> (r: Option<u64>)
    ensures
        match r {
            Some(v) => parse_unsigned(s@, max as int) == Some(v as int),
            None => parse_unsigned(s@, max as int) is None,
        },
{
    let from: usize = if s.len() > 0 && s[0] == '+' {
        1
    } else {
        0
    };
    let ghost digits = if s@.len() > 0 && s@[0] == '+' {
        s@.skip(1)
    } else {
        s@
    };
    assert(digits =~= s@.skip(from as int));
    if s.len() == from {
        return None;
    }
    let mut acc: u64 = 0;
    let mut i: usize = from;
    assert(digits.take(0) =~= Seq::<char>::empty());
    while i < s.len()
        invariant
            from <= i <= s@.len(),
            from <= 1,
            digits == s@.skip(from as int),
            digits_value(digits.take(i - from)) == Some(acc as int),
            acc <= max,
            parse_unsigned(s@, max as int) == (match digits_value(digits) {
                Some(v) if v <= max => Some(v),
                _ => None::<int>,
            }),
        decreases s@.len() - i,
    {
        let c: char = s[i];
        let ghost upto = digits.take(i - from + 1);
        proof {
            assert(upto.drop_last() =~= digits.take(i - from));
            assert(upto.last() == c);
            if digits_value(digits) is Some {
                lemma_digits_value_grows(digits, i - from + 1);
            }
        }
        if c < '0' || c > '9' {
            return None;
        }
        let next: u128 = acc as u128 * 10 + (c as u32 - 48) as u128;
        if next > max as u128 {
            return None;
        }
        acc = next as u64;
        i += 1;
    }
    assert(digits.take(digits.len() as int) =~= digits);
    Some(acc)
}

/// Numbers in decimal notation with `, ` between them.
pub open spec fn number_list(v: Seq<int>) -> Seq<char>
    decreases v.len(),
{
    if v.len() == 0 {
        Seq::empty()
    } else if v.len() == 1 {
        decimal(v[0])
    } else {
        number_list(v.drop_last()) + ", "@ + decimal(v.last())
    }
}

/// Numbers in square brackets.
pub open spec fn bracketed(v: Seq<int>) -> Seq<char> {
    "["@ + number_list(v) + "]"@
}

/// The numbers of a list.
pub open spec fn unsigned_values(v: Seq<usize>) -> Seq<int> {
    Seq::new(v.len(), |i: int| v[i] as int)
}

/// The numbers of a list.
pub open spec fn signed_values(v: Seq<i64>) -> Seq<int> {
    Seq::new(v.len(), |i: int| v[i] as int)
}

/// A list of numbers in square brackets.
pub fn unsigned_list_text(v: &Vec<usize>) -> (r: String)
    ensures
        r@ == bracketed(unsigned_values(v@)),
{
    let mut out = String::from_str("[");
    let ghost all = unsigned_values(v@);
    let mut i: usize = 0;
    assert(all.take(0) =~= Seq::<int>::empty());
    assert(out@ =~= "["@ + number_list(all.take(0)));
    while i < v.len()
        invariant
            i <= v@.len(),
            all == unsigned_values(v@),
            out@ == "["@ + number_list(all.take(i as int)),
        decreases v@.len() - i,
    {
        proof {
            let upto = all.take(i + 1);
            assert(upto.drop_last() =~= all.take(i as int));
            assert(upto.last() == v@[i as int]);
        }
        if i > 0 {
            out.append(", ");
        }
        out.append(unsigned_text(v[i] as u64).as_str());
        assert(out@ =~= "["@ + number_list(all.take(i + 1)));
        i += 1;
    }
    assert(all.take(i as int) =~= all);
    out.append("]");
    out
}

/// A list of numbers in square brackets.
pub fn signed_list_text(v: &Vec<i64>) -> (r: String)
    ensures
        r@ == bracketed(signed_values(v@)),
{
    let mut out = String::from_str("[");
    let ghost all = signed_values(v@);
    let mut i: usize = 0;
    assert(all.take(0) =~= Seq::<int>::empty());
    assert(out@ =~= "["@ + number_list(all.take(0)));
    while i < v.len()
        invariant
            i <= v@.len(),
            all == signed_values(v@),
            out@ == "["@ + number_list(all.take(i as int)),
        decreases v@.len() - i,
    {
        proof {
            let upto = all.take(i + 1);
            assert(upto.drop_last() =~= all.take(i as int));
            assert(upto.last() == v@[i as int]);
        }
        if i > 0 {
            out.append(", ");
        }
        out.append(signed_text(v[i]).as_str());
        assert(out@ =~= "["@ + number_list(all.take(i + 1)));
        i += 1;
    }
    assert(all.take(i as int) =~= all);
    out.append("]");
    out
}

/// A number that is written down is read back, and one above the limit is refused.
pub proof fn law_decimal_is_read_back(n: int, max: int)
    requires
        0 <= n,
    ensures
        parse_unsigned(decimal(n), max) == if n <= max {
            Some(n)
        } else {
            None
        },
        parse_unsigned(seq!['+'] + decimal(n), max) == parse_unsigned(decimal(n), max),
{
    lemma_decimal_digits(n);
    let d = decimal(n);
    assert(d[0] != '+');
    assert((seq!['+'] + d).skip(1) =~= d);
}

/// A decimal notation is digits only, and their value is the number.
pub proof fn lemma_decimal_digits(n: int)
    requires
        0 <= n,
    ensures
        decimal_abs(n).len() > 0,
        digits_value(decimal_abs(n)) == Some(n),
        forall|k: int| 0 <= k < decimal_abs(n).len() ==> '0' <= #[trigger] decimal_abs(n)[k] <= '9',
    decreases n,
{
    let d = decimal_abs(n);
    if n < 10 {
        assert(d.drop_last() =~= Seq::<char>::empty());
        assert(d.last() == digit(n));
        reveal_with_fuel(digits_value, 2);
    } else {
        lemma_decimal_digits(n / 10);
        assert(d.drop_last() =~= decimal_abs(n / 10));
        assert(d.last() == digit(n % 10));
    }
}

/// Text that is no number is refused: one character that is no digit is enough.
pub proof fn law_only_digits_are_a_number(s: Seq<char>, max: int, k: int)
    requires
        1 <= k < s.len(),
        !('0' <= s[k] <= '9'),
    ensures
        parse_unsigned(s, max) is None,
{
    lemma_no_value(s, k);
    lemma_no_value(s.skip(1), k - 1);
}

proof fn lemma_no_value(s: Seq<char>, k: int)
    requires
        0 <= k < s.len(),
        !('0' <= s[k] <= '9'),
    ensures
        digits_value(s) is None,
    decreases s.len(),
{
    if k < s.len() - 1 {
        lemma_no_value(s.drop_last(), k);
    }
}

/// Nothing but white space is trimmed, from both ends, and all of it.
pub proof fn law_trimming(front: Seq<char>, s: Seq<char>, back: Seq<char>)
    requires
        forall|k: int| 0 <= k < front.len() ==> is_white(#[trigger] front[k]),
        forall|k: int| 0 <= k < back.len() ==> is_white(#[trigger] back[k]),
        s.len() > 0 ==> !is_white(s[0]) && !is_white(s.last()),
    ensures
        trimmed(front + s + back) == s,
    decreases front.len() + back.len(),
{
    let all = front + s + back;
    if s.len() > 0 {
        lemma_trim_front(front, s + back);
        assert(all =~= front + (s + back));
        lemma_trim_back(s, back);
    } else {
        assert(all =~= front + back + Seq::<char>::empty());
        assert forall|k: int| 0 <= k < (front + back).len() implies is_white(
            #[trigger] (front + back)[k],
        ) by {
            if k >= front.len() {
                assert((front + back)[k] == back[k - front.len()]);
            }
        }
        lemma_trim_front(front + back, Seq::empty());
        assert(s =~= Seq::<char>::empty());
    }
}

proof fn lemma_trim_front(front: Seq<char>, s: Seq<char>)
    requires
        forall|k: int| 0 <= k < front.len() ==> is_white(#[trigger] front[k]),
        s.len() > 0 ==> !is_white(s[0]),
    ensures
        trim_front(front + s) == s,
    decreases front.len(),
{
    if front.len() > 0 {
        let rest = front.skip(1);
        assert((front + s)[0] == front[0]);
        assert((front + s).skip(1) =~= rest + s);
        assert forall|k: int| 0 <= k < rest.len() implies is_white(#[trigger] rest[k]) by {
            assert(rest[k] == front[k + 1]);
        }
        lemma_trim_front(rest, s);
    } else {
        assert(front + s =~= s);
    }
}

proof fn lemma_trim_back(s: Seq<char>, back: Seq<char>)
    requires
        forall|k: int| 0 <= k < back.len() ==> is_white(#[trigger] back[k]),
        s.len() > 0,
        !is_white(s.last()),
    ensures
        trim_back(s + back) == s,
    decreases back.len(),
{
    if back.len() > 0 {
        let rest = back.drop_last();
        assert((s + back).last() == back.last());
        assert((s + back).drop_last() =~= s + rest);
        assert forall|k: int| 0 <= k < rest.len() implies is_white(#[trigger] rest[k]) by {
            assert(rest[k] == back[k]);
        }
        lemma_trim_back(s, rest);
    } else {
        assert(s + back =~= s);
    }
}

/// Blanks, tabs and line ends are white space; what is printed in ASCII is not.
pub proof fn law_white_space(c: char)
    ensures
        c == ' ' || c == '\t' || c == '\n' || c == '\r' ==> is_white(c),
        '!' <= c <= '~' ==> !is_white(c),
{
}

/// Lower case is what is left of upper case; nothing else changes.
pub proof fn law_lowering(s: Seq<char>, k: int)
    requires
        0 <= k < s.len(),
    ensures
        lowered(s).len() == s.len(),
        'A' <= s[k] <= 'Z' ==> 'a' <= lowered(s)[k] <= 'z' && lowered(s)[k] as int - 'a' as int
            == s[k] as int - 'A' as int,
        !('A' <= s[k] <= 'Z') ==> lowered(s)[k] == s[k],
{
}

/// Text in which nothing is to be replaced stays as it is.
pub proof fn law_nothing_to_replace(s: Seq<char>, p: Seq<char>, r: Seq<char>)
    requires
        !occurs_in(p, s),
    ensures
        substituted(s, p, r) == s,
    decreases s.len(),
{
    if p.len() == 0 {
    } else if s.len() >= p.len() {
        if p.is_prefix_of(s) {
            assert(s.subrange(0, p.len() as int) =~= p);
            assert(occurs_at(p, s, 0));
        }
        let rest = s.skip(1);
        assert forall|i: int| !occurs_at(p, rest, i) by {
            if occurs_at(p, rest, i) {
                assert(s.subrange(i + 1, i + 1 + p.len()) =~= rest.subrange(i, i + p.len()));
                assert(occurs_at(p, s, i + 1));
            }
        }
        law_nothing_to_replace(rest, p, r);
        assert(seq![s[0]] + rest =~= s);
    }
}

/// A text that ends with what is to be replaced, and holds it nowhere else, gets
/// the new ending.
#[verifier::rlimit(60)]
pub proof fn law_ending_is_replaced(s: Seq<char>, p: Seq<char>, r: Seq<char>)
    requires
        p.len() > 0,
        forall|i: int| 0 <= i < s.len() ==> !occurs_at(p, s + p, i),
    ensures
        substituted(s + p, p, r) == s + r,
    decreases s.len(),
{
    let all = s + p;
    if s.len() == 0 {
        assert(all =~= p);
        assert(p.is_prefix_of(all));
        assert(all.skip(p.len() as int) =~= Seq::<char>::empty());
        assert(substituted(Seq::<char>::empty(), p, r) == Seq::<char>::empty());
        assert(r + Seq::<char>::empty() =~= s + r);
    } else {
        let rest = s.skip(1);
        assert(all.skip(1) =~= rest + p);
        assert(!p.is_prefix_of(all)) by {
            assert(!occurs_at(p, all, 0));
        }
        assert forall|i: int| 0 <= i < rest.len() implies !occurs_at(p, rest + p, i) by {
            assert(!occurs_at(p, all, i + 1));
            lemma_occurs_behind(p, all, i);
        }
        law_ending_is_replaced(rest, p, r);
        assert(substituted(all, p, r) == seq![all[0]] + substituted(all.skip(1), p, r));
        assert(seq![all[0]] + (rest + r) =~= s + r);
    }
}

proof fn lemma_occurs_behind(p: Seq<char>, s: Seq<char>, i: int)
    requires
        s.len() > 0,
    ensures
        occurs_at(p, s.skip(1), i) ==> occurs_at(p, s, i + 1),
{
    if occurs_at(p, s.skip(1), i) {
        assert(s.subrange(i + 1, i + 1 + p.len()) =~= s.skip(1).subrange(i, i + p.len()));
    }
}

/// A list of numbers is their decimal notations, with a comma and a blank between
/// them, in brackets.
pub proof fn law_listed_numbers(v: Seq<int>, n: int)
    ensures
        bracketed(Seq::empty()) == "[]"@,
        bracketed(seq![n]) == "["@ + decimal(n) + "]"@,
        v.len() > 0 ==> bracketed(v.push(n)) == bracketed(v).drop_last() + ", "@ + decimal(n)
            + "]"@,
{
    reveal_strlit("[");
    reveal_strlit("]");
    reveal_strlit("[]");
    assert(bracketed(Seq::empty()) =~= "[]"@);
    assert(v.push(n).drop_last() =~= v);
    assert(bracketed(v).drop_last() =~= "["@ + number_list(v));
    assert(bracketed(v.push(n)) =~= bracketed(v).drop_last() + ", "@ + decimal(n) + "]"@
        || v.len() == 0);
}

/// A text that is put together begins with its first part and ends with its last.
pub proof fn law_ends_of_a_text(first: Seq<char>, middle: Seq<char>, last: Seq<char>)
    ensures
        first.is_prefix_of(first + middle + last),
        (first + middle).is_prefix_of(first + middle + last),
        last.is_suffix_of(first + middle + last),
        (middle + last).is_suffix_of(first + middle + last),
{
    let whole = first + middle + last;
    assert(whole.subrange(0, first.len() as int) =~= first);
    assert(whole.subrange(0, (first + middle).len() as int) =~= first + middle);
    assert(whole.subrange(whole.len() - last.len(), whole.len() as int) =~= last);
    assert(whole.subrange(whole.len() - (middle + last).len(), whole.len() as int) =~= middle + last);
}

} // verus!
