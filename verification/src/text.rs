//! Character-level text primitives with their mathematical models.
use vstd::prelude::*;
use vstd::string::*;

verus! {

/// Appends one character to a `String` (std's `String::push`).
/// Trusted: the result is the old content followed by `c`.
#[verifier::external_body]
pub(crate) fn push_char(s: &mut String, c: char)
    ensures
        final(s)@ == old(s)@.push(c),
{
    s.push(c);
}

/// std's `String::from_utf8`, keeping the string when there is one.
/// Trusted: it succeeds exactly on valid UTF-8 and then holds the decoded characters.
#[verifier::external_body]
pub(crate) fn utf8_decode(bytes: Vec<u8>) -> (r: Option<String>)
    ensures
        r is Some <==> vstd::utf8::valid_utf8(bytes@),
        r matches Some(s) ==> s@ == vstd::utf8::decode_utf8(bytes@),
{
    String::from_utf8(bytes).ok()
}

/// `a` followed by `b`.
pub fn concat_str(a: &str, b: &str) -> (out: String)
    ensures
        out@ == a@ + b@,
{
    let mut out = String::from_str(a);
    out.append(b);
    out
}

/// The characters of `s`, in order.
pub fn chars_of(s: &str) -> (out: Vec<char>)
    ensures
        out@ == s@,
{
    let mut out: Vec<char> = Vec::new();
    for c in it: s.chars()
        invariant
            out@ == it.seq().take(it.index() as int),
    {
        out.push(c);
    }
    out
}

/// The string made of `cs[lo..hi]`.
pub fn string_of_range(cs: &Vec<char>, lo: usize, hi: usize) -> (out: String)
    requires
        lo <= hi <= cs@.len(),
    ensures
        out@ == cs@.subrange(lo as int, hi as int),
{
    let mut out = String::new();
    let mut i = lo;
    while i < hi
        invariant
            lo <= i <= hi <= cs@.len(),
            out@ == cs@.subrange(lo as int, i as int),
        decreases hi - i,
    {
        push_char(&mut out, cs[i]);
        i = i + 1;
        assert(out@ =~= cs@.subrange(lo as int, i as int));
    }
    out
}

/// `p` is a prefix of `s`.
pub open spec fn starts_with(s: Seq<char>, p: Seq<char>) -> bool {
    p.len() <= s.len() && s.take(p.len() as int) == p
}

/// Every non-overlapping occurrence of `from` in `s`, scanned left to right,
/// replaced by `to`. An empty `from` matches before every character and at the end.
pub open spec fn replace_all(s: Seq<char>, from: Seq<char>, to: Seq<char>) -> Seq<char>
    decreases s.len(),
{
    if from.len() == 0 {
        if s.len() == 0 {
            to
        } else {
            to + seq![s[0]] + replace_all(s.skip(1), from, to)
        }
    } else if s.len() == 0 {
        s
    } else if starts_with(s, from) {
        to + replace_all(s.skip(from.len() as int), from, to)
    } else {
        seq![s[0]] + replace_all(s.skip(1), from, to)
    }
}

/// `from` occurs in `s` at position `i`.
pub open spec fn occurs(s: Seq<char>, from: Seq<char>, i: int) -> bool {
    0 <= i <= s.len() && starts_with(s.skip(i), from)
}

/// Where `from` does not occur, replacing it changes nothing.
pub proof fn law_replace_absent(s: Seq<char>, from: Seq<char>, to: Seq<char>)
    requires
        from.len() > 0,
        forall|i: int| !occurs(s, from, i),
    ensures
        replace_all(s, from, to) == s,
    decreases s.len(),
{
    if s.len() > 0 {
        assert(!occurs(s, from, 0));
        assert(s.skip(0) =~= s);
        let t = s.skip(1);
        assert forall|i: int| !occurs(t, from, i) by {
            if 0 <= i <= t.len() {
                assert(t.skip(i) =~= s.skip(i + 1));
                assert(!occurs(s, from, i + 1));
            }
        }
        law_replace_absent(t, from, to);
        assert(seq![s[0]] + t =~= s);
    }
}

/// A part that holds no occurrence before its end is copied unchanged.
proof fn lemma_replace_clean_prefix(pre: Seq<char>, rest: Seq<char>, from: Seq<char>, to: Seq<char>)
    requires
        from.len() > 0,
        forall|i: int| 0 <= i < pre.len() ==> !occurs(pre + rest, from, i),
    ensures
        replace_all(pre + rest, from, to) == pre + replace_all(rest, from, to),
    decreases pre.len(),
{
    let s = pre + rest;
    if pre.len() == 0 {
        assert(s =~= rest);
        assert(pre + replace_all(rest, from, to) =~= replace_all(rest, from, to));
    } else {
        assert(!occurs(s, from, 0));
        assert(s.skip(0) =~= s);
        let p1 = pre.skip(1);
        assert(s.skip(1) =~= p1 + rest);
        assert forall|i: int| 0 <= i < p1.len() implies !occurs(p1 + rest, from, i) by {
            assert((p1 + rest).skip(i) =~= s.skip(i + 1));
            assert(!occurs(s, from, i + 1));
        }
        lemma_replace_clean_prefix(p1, rest, from, to);
        assert(seq![pre[0]] + (p1 + replace_all(rest, from, to)) =~= pre + replace_all(rest, from, to));
    }
}

/// Where `from` occurs exactly once, replacing it puts `to` in its place and keeps the
/// rest.
pub proof fn law_replace_single(pre: Seq<char>, from: Seq<char>, post: Seq<char>, to: Seq<char>)
    requires
        from.len() > 0,
        forall|i: int| occurs(pre + from + post, from, i) ==> i == pre.len(),
    ensures
        replace_all(pre + from + post, from, to) == pre + to + post,
{
    let s = pre + from + post;
    let rest = from + post;
    assert(s =~= pre + rest);
    assert forall|i: int| 0 <= i < pre.len() implies !occurs(pre + rest, from, i) by {
        if occurs(pre + rest, from, i) {
            assert(occurs(s, from, i));
        }
    }
    lemma_replace_clean_prefix(pre, rest, from, to);
    assert(rest.skip(0) =~= rest);
    assert(rest.take(from.len() as int) =~= from);
    assert(rest.skip(from.len() as int) =~= post);
    assert forall|i: int| !occurs(post, from, i) by {
        if occurs(post, from, i) {
            assert(post.skip(i) =~= s.skip(pre.len() + from.len() + i));
            assert(occurs(s, from, pre.len() + from.len() + i));
        }
    }
    law_replace_absent(post, from, to);
    assert(pre + (to + post) =~= pre + to + post);
}

/// Whether `pat` occurs in `hay` at position `i`.
fn occurs_at(hay: &Vec<char>, i: usize, pat: &Vec<char>) -> (b: bool)
    requires
        i <= hay@.len(),
    ensures
        b == starts_with(hay@.skip(i as int), pat@),
{
    if pat.len() > hay.len() - i {
        return false;
    }
    let mut k: usize = 0;
    while k < pat.len()
        invariant
            i + pat@.len() <= hay@.len(),
            hay@.len() <= usize::MAX,
            k <= pat@.len(),
            forall|j: int| 0 <= j < k ==> hay@[i + j] == pat@[j],
        decreases pat@.len() - k,
    {
        if hay[i + k] != pat[k] {
            assert(hay@.skip(i as int).take(pat@.len() as int)[k as int] != pat@[k as int]);
            return false;
        }
        k = k + 1;
    }
    assert(hay@.skip(i as int).take(pat@.len() as int) =~= pat@);
    true
}

/// Whether `s` starts with `p` (std's `str::starts_with`).
pub fn starts_with_str(s: &str, p: &str) -> (b: bool)
    ensures
        b == starts_with(s@, p@),
{
    let cs = chars_of(s);
    let ps = chars_of(p);
    assert(cs@.skip(0) =~= cs@);
    occurs_at(&cs, 0, &ps)
}

/// `s` with every occurrence of `from` replaced by `to` (std's `str::replace`).
pub fn replace_all_str(s: &str, from: &str, to: &str) -> (out: String)
    ensures
        out@ == replace_all(s@, from@, to@),
{
    let hay = chars_of(s);
    let pat = chars_of(from);
    let n = hay.len();
    let mut out = String::new();
    let mut i: usize = 0;
    assert(hay@.skip(0) =~= hay@);
    assert(out@ + replace_all(hay@, pat@, to@) =~= replace_all(hay@, pat@, to@));
    if pat.len() == 0 {
        while i < n
            invariant
                n == hay@.len(),
                pat@ == from@,
                hay@ == s@,
                pat@.len() == 0,
                i <= n,
                out@ + replace_all(hay@.skip(i as int), pat@, to@) == replace_all(hay@, pat@, to@),
            decreases n - i,
        {
            let ghost rest = hay@.skip(i as int);
            assert(rest.skip(1) =~= hay@.skip(i + 1));
            out.append(to);
            push_char(&mut out, hay[i]);
            i = i + 1;
        }
        assert(hay@.skip(n as int) =~= Seq::<char>::empty());
        out.append(to);
        return out;
    }
    while i < n
        invariant
            n == hay@.len(),
            pat@ == from@,
            hay@ == s@,
            pat@.len() > 0,
            i <= n,
            out@ + replace_all(hay@.skip(i as int), pat@, to@) == replace_all(hay@, pat@, to@),
        decreases n - i,
    {
        let ghost rest = hay@.skip(i as int);
        if occurs_at(&hay, i, &pat) {
            out.append(to);
            assert(rest.skip(pat@.len() as int) =~= hay@.skip(i + pat@.len()));
            i = i + pat.len();
        } else {
            push_char(&mut out, hay[i]);
            assert(rest.skip(1) =~= hay@.skip(i + 1));
            i = i + 1;
        }
    }
    assert(hay@.skip(n as int) =~= Seq::<char>::empty());
    out
}


/// The decimal digit character for `d` (`d < 10`).
pub open spec fn digit_char(d: nat) -> char {
    if d == 0 { '0' } else if d == 1 { '1' } else if d == 2 { '2' } else if d == 3 { '3' }
    else if d == 4 { '4' } else if d == 5 { '5' } else if d == 6 { '6' } else if d == 7 { '7' }
    else if d == 8 { '8' } else { '9' }
}

/// An ASCII decimal digit.
pub open spec fn is_digit(c: char) -> bool {
    '0' <= c && c <= '9'
}

/// The value of a decimal digit character.
pub open spec fn digit_value(c: char) -> int {
    c as int - '0' as int
}

/// The shortest decimal spelling of `n` (std's `Display` for unsigned integers).
pub open spec fn decimal(n: nat) -> Seq<char>
    decreases n,
{
    if n < 10 {
        seq![digit_char(n)]
    } else {
        decimal(n / 10).push(digit_char(n % 10))
    }
}

/// Every character of `s` is a decimal digit.
pub open spec fn all_digits(s: Seq<char>) -> bool {
    forall|i: int| 0 <= i < s.len() ==> is_digit(#[trigger] s[i])
}

/// The number spelled by the digit string `s`, most significant digit first.
pub open spec fn digits_value(s: Seq<char>) -> int
    decreases s.len(),
{
    if s.len() == 0 {
        0
    } else {
        10 * digits_value(s.drop_last()) + digit_value(s.last())
    }
}

/// The digits of an unsigned number as std's `FromStr` reads them: one optional leading `+`.
pub open spec fn unsigned_digits(s: Seq<char>) -> Seq<char> {
    if s.len() > 0 && s[0] == '+' {
        s.skip(1)
    } else {
        s
    }
}

/// What std's `FromStr` for an unsigned integer type whose largest value is `max`
/// gives for `s`: a non-empty run of digits after an optional `+`, not above `max`.
pub open spec fn parse_unsigned(s: Seq<char>, max: int) -> Option<int> {
    let d = unsigned_digits(s);
    if d.len() > 0 && all_digits(d) && digits_value(d) <= max {
        Some(digits_value(d))
    } else {
        None
    }
}

fn digit_to_char(d: u64) -> (c: char)
    requires
        d < 10,
    ensures
        c == digit_char(d as nat),
        is_digit(c),
        digit_value(c) == d,
{
    if d == 0 { '0' } else if d == 1 { '1' } else if d == 2 { '2' } else if d == 3 { '3' }
    else if d == 4 { '4' } else if d == 5 { '5' } else if d == 6 { '6' } else if d == 7 { '7' }
    else if d == 8 { '8' } else { '9' }
}

/// The decimal spelling of `n`.
pub fn decimal_string(n: u64) -> (out: String)
    ensures
        out@ == decimal(n as nat),
    decreases n,
{
    if n < 10 {
        let mut out = String::new();
        push_char(&mut out, digit_to_char(n));
        assert(out@ =~= seq![digit_char(n as nat)]);
        out
    } else {
        let mut out = decimal_string(n / 10);
        push_char(&mut out, digit_to_char(n % 10));
        out
    }
}

/// Reads `s` as std's `FromStr` reads an unsigned integer no greater than `max`.
pub fn parse_unsigned_str(s: &str, max: u64) -> (out: Option<u64>)
    ensures
        out matches Some(v) ==> parse_unsigned(s@, max as int) == Some(v as int),
        out is None ==> parse_unsigned(s@, max as int) is None,
{
    let cs = chars_of(s);
    let n = cs.len();
    let mut start: usize = 0;
    if n > 0 && cs[0] == '+' {
        start = 1;
    }
    let ghost d = unsigned_digits(cs@);
    assert(d =~= cs@.subrange(start as int, n as int));
    if start == n {
        return None;
    }
    let mut i = start;
    let mut acc: u64 = 0;
    let mut over = false;
    assert(cs@.subrange(start as int, start as int) =~= Seq::<char>::empty());
    while i < n
        invariant
            n == cs@.len(),
            d == cs@.subrange(start as int, n as int),
            d == unsigned_digits(s@),
            start <= i <= n,
            all_digits(cs@.subrange(start as int, i as int)),
            !over ==> acc == digits_value(cs@.subrange(start as int, i as int)) && acc <= max,
            over ==> digits_value(cs@.subrange(start as int, i as int)) > max,
            digits_value(cs@.subrange(start as int, i as int)) >= 0,
        decreases n - i,
    {
        let c = cs[i];
        let ghost prev = cs@.subrange(start as int, i as int);
        let ghost next = cs@.subrange(start as int, i + 1);
        assert(next.drop_last() =~= prev);
        if !(c >= '0' && c <= '9') {
            assert(!all_digits(d)) by {
                assert(d[i - start] == c);
                assert(!is_digit(d[i - start]));
            }
            return None;
        }
        let dv = (c as u64) - ('0' as u64);
        assert(digits_value(next) == 10 * digits_value(prev) + dv);
        if !over {
            if dv > max || acc > (max - dv) / 10 {
                assert(10 * acc + dv > max) by (nonlinear_arith)
                    requires dv > max || acc > (max - dv) / 10, acc >= 0, dv >= 0, max >= 0;
                over = true;
            } else {
                assert(10 * acc + dv <= max) by (nonlinear_arith)
                    requires dv <= max, acc <= (max - dv) / 10, acc >= 0, dv >= 0;
                acc = acc * 10 + dv;
            }
        }
        assert(all_digits(next)) by {
            assert forall|j: int| 0 <= j < next.len() implies is_digit(#[trigger] next[j]) by {
                if j < prev.len() {
                    assert(next[j] == prev[j]);
                }
            }
        }
        i = i + 1;
    }
    if over {
        None
    } else {
        Some(acc)
    }
}

proof fn lemma_digit_char(k: nat)
    requires
        k < 10,
    ensures
        is_digit(digit_char(k)),
        digit_value(digit_char(k)) == k,
{
}

/// Every digit string reads back as the number it spells.
pub proof fn lemma_decimal_digits(n: nat)
    ensures
        all_digits(decimal(n)),
        digits_value(decimal(n)) == n,
        decimal(n).len() > 0,
        decimal(n)[0] != '+',
    decreases n,
{
    if n < 10 {
        lemma_digit_char(n);
        let d = decimal(n);
        assert(d.drop_last() =~= Seq::<char>::empty());
        assert(digits_value(d.drop_last()) == 0);
        assert(d.last() == digit_char(n));
    } else {
        lemma_digit_char(n % 10);
        lemma_decimal_digits(n / 10);
        let d = decimal(n);
        assert(d.drop_last() =~= decimal(n / 10));
        assert(d.last() == digit_char(n % 10));
        assert(n == 10 * (n / 10) + n % 10);
        assert(d[0] == decimal(n / 10)[0]);
        assert forall|j: int| 0 <= j < d.len() implies is_digit(#[trigger] d[j]) by {
            if j < d.len() - 1 {
                assert(d[j] == decimal(n / 10)[j]);
            }
        }
    }
}

/// Reading a number's decimal spelling gives the number back.
pub proof fn law_decimal_round_trip(n: nat, max: int)
    requires
        n <= max,
    ensures
        parse_unsigned(decimal(n), max) == Some(n as int),
{
    lemma_decimal_digits(n);
}


/// `s` without its longest prefix of characters satisfying `p`.
pub open spec fn strip_leading(s: Seq<char>, p: spec_fn(char) -> bool) -> Seq<char>
    decreases s.len(),
{
    if s.len() > 0 && p(s[0]) {
        strip_leading(s.skip(1), p)
    } else {
        s
    }
}

/// `s` without its longest suffix of characters satisfying `p`.
pub open spec fn strip_trailing(s: Seq<char>, p: spec_fn(char) -> bool) -> Seq<char>
    decreases s.len(),
{
    if s.len() > 0 && p(s.last()) {
        strip_trailing(s.drop_last(), p)
    } else {
        s
    }
}

/// `s` without the characters satisfying `p` at either end.
pub open spec fn trim_by(s: Seq<char>, p: spec_fn(char) -> bool) -> Seq<char> {
    strip_trailing(strip_leading(s, p), p)
}

/// Unicode `White_Space` (std's `char::is_whitespace`).
pub open spec fn is_whitespace(c: char) -> bool {
    let v = c as int;
    (0x9 <= v && v <= 0xd) || v == 0x20 || v == 0x85 || v == 0xa0 || v == 0x1680
        || (0x2000 <= v && v <= 0x200a) || v == 0x2028 || v == 0x2029 || v == 0x202f
        || v == 0x205f || v == 0x3000
}

/// The characters that a trim removes: white space, or else the character `target`.
pub open spec fn trim_class(white: bool, target: char) -> spec_fn(char) -> bool {
    |c: char| if white { is_whitespace(c) } else { c == target }
}

/// `s` without white space at either end (std's `str::trim`).
pub open spec fn trim(s: Seq<char>) -> Seq<char> {
    trim_by(s, trim_class(true, ' '))
}

/// `s` without any `c` at either end (std's `str::trim_matches` with a `char`).
pub open spec fn trim_matches(s: Seq<char>, c: char) -> Seq<char> {
    trim_by(s, trim_class(false, c))
}

fn in_trim_class(c: char, white: bool, target: char) -> (b: bool)
    ensures
        b == trim_class(white, target)(c),
{
    if white {
        let v = c as u32;
        (0x9 <= v && v <= 0xd) || v == 0x20 || v == 0x85 || v == 0xa0 || v == 0x1680
            || (0x2000 <= v && v <= 0x200a) || v == 0x2028 || v == 0x2029 || v == 0x202f
            || v == 0x205f || v == 0x3000
    } else {
        c == target
    }
}

fn trim_class_str(s: &str, white: bool, target: char) -> (out: String)
    ensures
        out@ == trim_by(s@, trim_class(white, target)),
{
    let cs = chars_of(s);
    let n = cs.len();
    let ghost p = trim_class(white, target);
    let mut lo: usize = 0;
    assert(cs@.skip(0) =~= cs@);
    while lo < n && in_trim_class(cs[lo], white, target)
        invariant
            n == cs@.len(),
            cs@ == s@,
            p == trim_class(white, target),
            lo <= n,
            strip_leading(cs@, p) == strip_leading(cs@.skip(lo as int), p),
        decreases n - lo,
    {
        assert(cs@.skip(lo as int).skip(1) =~= cs@.skip(lo + 1));
        lo = lo + 1;
    }
    let ghost lead = cs@.skip(lo as int);
    assert(strip_leading(lead, p) == lead);
    assert(lead =~= cs@.subrange(lo as int, n as int));
    let mut hi: usize = n;
    while hi > lo && in_trim_class(cs[hi - 1], white, target)
        invariant
            n == cs@.len(),
            p == trim_class(white, target),
            lo <= hi <= n,
            strip_trailing(lead, p) == strip_trailing(cs@.subrange(lo as int, hi as int), p),
        decreases hi - lo,
    {
        assert(cs@.subrange(lo as int, hi as int).drop_last() =~= cs@.subrange(lo as int, hi - 1));
        hi = hi - 1;
    }
    string_of_range(&cs, lo, hi)
}

/// `s` without white space at either end.
pub fn trim_str(s: &str) -> (out: String)
    ensures
        out@ == trim(s@),
{
    trim_class_str(s, true, ' ')
}

/// `s` without any `c` at either end.
pub fn trim_matches_str(s: &str, c: char) -> (out: String)
    ensures
        out@ == trim_matches(s@, c),
{
    trim_class_str(s, false, c)
}

/// `name` appended to the directory `dir` as std's `PathBuf::push` does on Unix:
/// an absolute `name` replaces `dir`, and a `/` separates them unless `dir` is empty
/// or already ends with one.
pub open spec fn path_join(dir: Seq<char>, name: Seq<char>) -> Seq<char> {
    if name.len() > 0 && name[0] == '/' {
        name
    } else if dir.len() == 0 || dir.last() == '/' {
        dir + name
    } else {
        dir + seq!['/'] + name
    }
}

/// `dir` joined with `name` (std's `Path::join` on Unix).
pub fn path_join_str(dir: &str, name: &str) -> (out: String)
    ensures
        out@ == path_join(dir@, name@),
{
    let d = chars_of(dir);
    let nm = chars_of(name);
    if nm.len() > 0 && nm[0] == '/' {
        return string_of_range(&nm, 0, nm.len());
    }
    let mut out = string_of_range(&d, 0, d.len());
    assert(d@.subrange(0, d@.len() as int) =~= d@);
    assert(nm@.subrange(0, nm@.len() as int) =~= nm@);
    if !(d.len() == 0 || d[d.len() - 1] == '/') {
        push_char(&mut out, '/');
    }
    out.append(name);
    out
}

/// The index of the last `c` in `s`, or -1.
pub open spec fn last_index_of(s: Seq<char>, c: char) -> int
    decreases s.len(),
{
    if s.len() == 0 {
        -1
    } else if s.last() == c {
        s.len() - 1
    } else {
        last_index_of(s.drop_last(), c)
    }
}

/// Characters appended after the last `c`, none of them `c`, leave it the last.
pub proof fn lemma_last_index_append(a: Seq<char>, b: Seq<char>, c: char)
    requires
        forall|i: int| 0 <= i < b.len() ==> b[i] != c,
    ensures
        last_index_of(a + b, c) == last_index_of(a, c),
    decreases b.len(),
{
    if b.len() == 0 {
        assert(a + b =~= a);
    } else {
        assert((a + b).last() == b.last());
        assert((a + b).drop_last() =~= a + b.drop_last());
        lemma_last_index_append(a, b.drop_last(), c);
    }
}

/// The extension of a file name as std's `Path::extension` reads it: what follows the
/// last `.`, unless that `.` is the first character or the name is `..`.
pub open spec fn file_extension(name: Seq<char>) -> Option<Seq<char>> {
    let k = last_index_of(name, '.');
    if name == seq!['.', '.'] || k <= 0 {
        None
    } else {
        Some(name.skip(k + 1))
    }
}

/// The stem of a file name as std's `Path::file_stem` reads it: the name without
/// its extension and the `.` before it.
pub open spec fn file_stem(name: Seq<char>) -> Seq<char> {
    let k = last_index_of(name, '.');
    if name == seq!['.', '.'] || k <= 0 {
        name
    } else {
        name.take(k)
    }
}

/// Splits a file name into its stem and extension (std's `Path::file_stem` and
/// `Path::extension`).
pub fn split_file_name(name: &str) -> (out: (String, Option<String>))
    ensures
        out.0@ == file_stem(name@),
        out.1 matches Some(e) ==> file_extension(name@) == Some(e@),
        out.1 is None ==> file_extension(name@) is None,
{
    let cs = chars_of(name);
    let n = cs.len();
    let mut k: usize = n;
    assert(cs@.take(n as int) =~= cs@);
    while k > 0 && cs[k - 1] != '.'
        invariant
            n == cs@.len(),
            k <= n,
            last_index_of(cs@, '.') == last_index_of(cs@.take(k as int), '.'),
        decreases k,
    {
        assert(cs@.take(k as int).drop_last() =~= cs@.take(k - 1));
        k = k - 1;
    }
    // k is one past the last '.', or 0 when there is none
    let ghost li = last_index_of(cs@, '.');
    assert(li == k as int - 1) by {
        if k > 0 {
            assert(cs@.take(k as int).last() == '.');
        } else {
            assert(cs@.take(0) =~= Seq::<char>::empty());
        }
    }
    let dotdot = n == 2 && cs[0] == '.' && cs[1] == '.';
    assert(dotdot == (cs@ == seq!['.', '.'])) by {
        if cs@ == seq!['.', '.'] {
            assert(cs@[0] == '.' && cs@[1] == '.');
        }
        if dotdot {
            assert(cs@ =~= seq!['.', '.']);
        }
    }
    if dotdot || k <= 1 {
        assert(cs@.subrange(0, n as int) =~= cs@);
        (string_of_range(&cs, 0, n), None)
    } else {
        assert(cs@.subrange(0, k - 1) =~= cs@.take(k - 1));
        assert(cs@.subrange(k as int, n as int) =~= cs@.skip(k as int));
        (string_of_range(&cs, 0, k - 1), Some(string_of_range(&cs, k, n)))
    }
}

/// Position `i` of `s` begins a line.
pub open spec fn is_line_start(s: Seq<char>, i: int) -> bool {
    i == 0 || s[i - 1] == '\n'
}

/// How many of the positions below `k` begin a line that starts with `p`.
pub open spec fn prefixed_lines_below(s: Seq<char>, p: Seq<char>, k: int) -> nat
    decreases k,
{
    if k <= 0 {
        0
    } else {
        prefixed_lines_below(s, p, k - 1) + if is_line_start(s, k - 1) && starts_with(
            s.skip(k - 1),
            p,
        ) {
            1nat
        } else {
            0nat
        }
    }
}

/// The number of lines of `s` that start with `p` (std's `str::lines`, filtered by
/// `starts_with`, counted; the two agree for any `p` that holds no `\n` and no `\r`).
pub open spec fn count_prefixed_lines(s: Seq<char>, p: Seq<char>) -> nat {
    prefixed_lines_below(s, p, s.len() as int)
}

/// Counts the lines of `s` that start with `p`.
pub fn count_prefixed_lines_str(s: &str, p: &str) -> (n: usize)
    ensures
        n == count_prefixed_lines(s@, p@),
{
    let cs = chars_of(s);
    let pat = chars_of(p);
    let len = cs.len();
    let mut i: usize = 0;
    let mut count: usize = 0;
    while i < len
        invariant
            len == cs@.len(),
            cs@ == s@,
            pat@ == p@,
            i <= len,
            count == prefixed_lines_below(cs@, pat@, i as int),
            count <= i,
        decreases len - i,
    {
        let start = i == 0 || cs[i - 1] == '\n';
        if start && occurs_at(&cs, i, &pat) {
            count = count + 1;
        }
        i = i + 1;
    }
    count
}

/// `p` holds no line break.
pub open spec fn no_newline(p: Seq<char>) -> bool {
    forall|i: int| 0 <= i < p.len() ==> p[i] != '\n'
}

/// `a` is empty or ends a line.
pub open spec fn ends_lines(a: Seq<char>) -> bool {
    a.len() == 0 || a.last() == '\n'
}

proof fn lemma_count_prefix_part(a: Seq<char>, b: Seq<char>, p: Seq<char>, k: int)
    requires
        ends_lines(a),
        no_newline(p),
        0 <= k <= a.len(),
    ensures
        prefixed_lines_below(a + b, p, k) == prefixed_lines_below(a, p, k),
    decreases k,
{
    if k > 0 {
        lemma_count_prefix_part(a, b, p, k - 1);
        let s = a + b;
        let i = k - 1;
        if i > 0 {
            assert(s[i - 1] == a[i - 1]);
        }
        assert(is_line_start(s, i) == is_line_start(a, i));
        let sa = a.skip(i);
        let ss = s.skip(i);
        if sa.len() >= p.len() {
            assert(ss.take(p.len() as int) =~= sa.take(p.len() as int));
        } else {
            // a's last character, a line break, falls within the first p.len() of ss
            let j = a.len() - 1 - i;
            assert(0 <= j < p.len());
            assert(ss[j] == a[a.len() - 1]);
            assert(a[a.len() - 1] == '\n');
            if starts_with(ss, p) {
                assert(ss.take(p.len() as int)[j] == p[j]);
                assert(p[j] != '\n');
            }
        }
        assert((is_line_start(s, i) && starts_with(ss, p)) == (is_line_start(a, i) && starts_with(
            sa,
            p,
        )));
    }
}

proof fn lemma_count_suffix_part(a: Seq<char>, b: Seq<char>, p: Seq<char>, j: int)
    requires
        ends_lines(a),
        no_newline(p),
        0 <= j <= b.len(),
    ensures
        prefixed_lines_below(a + b, p, a.len() + j) == count_prefixed_lines(a, p)
            + prefixed_lines_below(b, p, j),
    decreases j,
{
    let s = a + b;
    if j == 0 {
        lemma_count_prefix_part(a, b, p, a.len() as int);
    } else {
        lemma_count_suffix_part(a, b, p, j - 1);
        let i = a.len() + j - 1;
        if j - 1 > 0 {
            assert(s[i - 1] == b[j - 2]);
        } else if a.len() > 0 {
            assert(s[i - 1] == a.last());
        }
        assert(is_line_start(s, i) == is_line_start(b, j - 1));
        assert(s.skip(i) =~= b.skip(j - 1));
    }
}

/// Counting the lines of text that follows whole lines adds to the count of those lines:
/// lines are never merged or lost at the seam, and the count has no bound.
pub proof fn law_count_lines_additive(a: Seq<char>, b: Seq<char>, p: Seq<char>)
    requires
        ends_lines(a),
        no_newline(p),
    ensures
        count_prefixed_lines(a + b, p) == count_prefixed_lines(a, p) + count_prefixed_lines(b, p),
{
    lemma_count_suffix_part(a, b, p, b.len() as int);
    assert((a + b).len() == a.len() + b.len());
}

/// A single line counts once when it starts with `p` and not at all otherwise.
pub proof fn law_count_one_line(line: Seq<char>, p: Seq<char>)
    requires
        no_newline(line),
        no_newline(p),
    ensures
        count_prefixed_lines(line + seq!['\n'], p) == if starts_with(line, p) {
            1nat
        } else {
            0nat
        },
{
    let s = line + seq!['\n'];
    lemma_count_one_line_tail(line, p, s.len() as int);
    assert(prefixed_lines_below(s, p, 0) == 0);
    assert(s.skip(0) =~= s);
    if line.len() >= p.len() {
        assert(s.take(p.len() as int) =~= line.take(p.len() as int));
    } else if starts_with(s, p) {
        let j = line.len() as int;
        assert(s.take(p.len() as int)[j] == p[j]);
        assert(s[j] == '\n');
    }
}

proof fn lemma_count_one_line_tail(line: Seq<char>, p: Seq<char>, k: int)
    requires
        no_newline(line),
        1 <= k <= line.len() + 1,
    ensures
        prefixed_lines_below(line + seq!['\n'], p, k) == prefixed_lines_below(
            line + seq!['\n'],
            p,
            1,
        ),
    decreases k,
{
    if k > 1 {
        lemma_count_one_line_tail(line, p, k - 1);
        let s = line + seq!['\n'];
        assert(s[k - 2] == line[k - 2]);
        assert(!is_line_start(s, k - 1));
    }
}

} // verus!
