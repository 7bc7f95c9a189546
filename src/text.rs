//! Character-level helpers: splitting on a separator, decimal numbers,
//! ASCII case folding and substring tests.

use vstd::prelude::*;

verus! {

/// The fields of `s` between occurrences of `sep` (there is always at least one).
pub open spec fn split(s: Seq<char>, sep: char) -> Seq<Seq<char>>
    decreases s.len(),
{
    if s.len() == 0 {
        seq![Seq::<char>::empty()]
    } else {
        let p = split(s.drop_last(), sep);
        if s.last() == sep {
            p.push(Seq::<char>::empty())
        } else {
            p.update(p.len() - 1, p.last().push(s.last()))
        }
    }
}

pub proof fn lemma_split_nonempty(s: Seq<char>, sep: char)
    ensures
        split(s, sep).len() >= 1,
    decreases s.len(),
{
    if s.len() > 0 {
        lemma_split_nonempty(s.drop_last(), sep);
    }
}

/// The text of `s` before its first `sep` (all of `s` where it has none).
pub open spec fn before_first(s: Seq<char>, sep: char) -> Seq<char> {
    split(s, sep)[0]
}

pub open spec fn is_digit(c: char) -> bool {
    '0' <= c <= '9'
}

pub open spec fn all_digits(s: Seq<char>) -> bool {
    forall|i: int| 0 <= i < s.len() ==> is_digit(#[trigger] s[i])
}

pub open spec fn digit_value(c: char) -> nat {
    (c as int - '0' as int) as nat
}

/// The number that a string of decimal digits writes.
pub open spec fn decimal_value(s: Seq<char>) -> nat
    decreases s.len(),
{
    if s.len() == 0 {
        0
    } else {
        decimal_value(s.drop_last()) * 10 + digit_value(s.last())
    }
}

/// The code of `c` with ASCII capitals taken to lower case.
pub open spec fn ascii_lower(c: char) -> u32 {
    if 'A' <= c <= 'Z' {
        (c as u32 + 32) as u32
    } else {
        c as u32
    }
}

/// Equal but for the case of ASCII letters.
pub open spec fn eq_ignore_ascii_case(a: Seq<char>, b: Seq<char>) -> bool {
    a.len() == b.len() && forall|i: int| 0 <= i < a.len() ==> ascii_lower(#[trigger] a[i]) == ascii_lower(b[i])
}

/// `n` occurs in `h` at position `at`.
pub open spec fn occurs_at(h: Seq<char>, n: Seq<char>, at: int) -> bool {
    0 <= at && at + n.len() <= h.len() && h.subrange(at, at + n.len()) == n
}

pub open spec fn contains(h: Seq<char>, n: Seq<char>) -> bool {
    exists|at: int| occurs_at(h, n, at)
}

pub open spec fn starts_with(h: Seq<char>, n: Seq<char>) -> bool {
    occurs_at(h, n, 0)
}

/// The characters of `s`, in order.
pub fn chars_of(s: &str) -> (r: Vec<char>)
    ensures
        r@ == s@,
{
    let n = s.unicode_len();
    let mut r: Vec<char> = Vec::new();
    let mut i: usize = 0;
    while i < n
        invariant
            n == s@.len(),
            i <= n,
            r@ == s@.take(i as int),
        decreases n - i,
    {
        r.push(s.get_char(i));
        i = i + 1;
        assert(r@ =~= s@.take(i as int));
    }
    assert(r@ =~= s@);
    r
}

/// Relies on `String::push`: appends one character.
#[verifier::external_body]
pub(crate) fn push_char(s: &mut String, c: char)
    ensures
        final(s)@ == old(s)@.push(c),
{
    s.push(c);
}

/// A `String` holding the characters of `v`.
pub fn string_of(v: &Vec<char>) -> (r: String)
    ensures
        r@ == v@,
{
    let mut r = String::new();
    let mut i: usize = 0;
    while i < v.len()
        invariant
            i <= v.len(),
            r@ == v@.take(i as int),
        decreases v.len() - i,
    {
        push_char(&mut r, v[i]);
        i = i + 1;
        assert(r@ =~= v@.take(i as int));
    }
    assert(r@ =~= v@);
    r
}

/// The fields of `s` between occurrences of `sep`.
pub fn split_fields(s: &Vec<char>, sep: char) -> (r: Vec<Vec<char>>)
    ensures
        r.len() == split(s@, sep).len(),
        forall|j: int| 0 <= j < r.len() ==> (#[trigger] r[j])@ == split(s@, sep)[j],
{
    let mut done: Vec<Vec<char>> = Vec::new();
    let mut cur: Vec<char> = Vec::new();
    let mut i: usize = 0;
    proof {
        assert(s@.take(0) =~= Seq::<char>::empty());
    }
    while i < s.len()
        invariant
            i <= s.len(),
            split(s@.take(i as int), sep).len() == done.len() + 1,
            forall|j: int| 0 <= j < done.len() ==> (#[trigger] done[j])@ == split(s@.take(i as int), sep)[j],
            cur@ == split(s@.take(i as int), sep)[done.len() as int],
        decreases s.len() - i,
    {
        let c = s[i];
        let ghost before = s@.take(i as int);
        assert(s@.take(i as int + 1).drop_last() =~= before);
        if c == sep {
            done.push(cur);
            cur = Vec::new();
        } else {
            cur.push(c);
        }
        i = i + 1;
        assert(cur@ =~= split(s@.take(i as int), sep)[done.len() as int]);
    }
    assert(s@.take(s.len() as int) =~= s@);
    done.push(cur);
    done
}

/// The value of a string of at most four decimal digits, or `None` where
/// it is empty, too long or holds another character.
pub fn small_decimal(s: &Vec<char>) -> (r: Option<u32>)
    ensures
        r is Some <==> (1 <= s.len() <= 4 && all_digits(s@)),
        r is Some ==> r->0 as nat == decimal_value(s@),
{
    if s.len() == 0 || s.len() > 4 {
        return None;
    }
    let mut v: u32 = 0;
    let mut i: usize = 0;
    while i < s.len()
        invariant
            1 <= s.len() <= 4,
            i <= s.len(),
            all_digits(s@.take(i as int)),
            v as nat == decimal_value(s@.take(i as int)),
            v < pow10(i as nat),
        decreases s.len() - i,
    {
        let c = s[i];
        if !('0' <= c && c <= '9') {
            assert(!all_digits(s@)) by {
                assert(!is_digit(s@[i as int]));
            }
            return None;
        }
        assert(s@.take(i as int + 1).drop_last() =~= s@.take(i as int));
        assert(pow10(i as nat + 1) == pow10(i as nat) * 10);
        assert(i < 4);
        assert(pow10(i as nat) <= 1000) by {
            reveal_with_fuel(pow10, 4);
        }
        v = v * 10 + (c as u32 - '0' as u32);
        i = i + 1;
    }
    assert(s@.take(s.len() as int) =~= s@);
    Some(v)
}

pub open spec fn pow10(n: nat) -> nat
    decreases n,
{
    if n == 0 {
        1
    } else {
        10 * pow10((n - 1) as nat)
    }
}

/// Compares two strings, ignoring the case of ASCII letters.
pub fn str_eq_ignore_ascii_case(a: &str, b: &str) -> (r: bool)
    ensures
        r == eq_ignore_ascii_case(a@, b@),
{
    let x = chars_of(a);
    let y = chars_of(b);
    if x.len() != y.len() {
        return false;
    }
    let mut i: usize = 0;
    while i < x.len()
        invariant
            x@ == a@,
            y@ == b@,
            x.len() == y.len(),
            i <= x.len(),
            forall|j: int| 0 <= j < i ==> ascii_lower(#[trigger] x@[j]) == ascii_lower(y@[j]),
        decreases x.len() - i,
    {
        let c = x[i];
        let d = y[i];
        let lc: u32 = if 'A' <= c && c <= 'Z' { c as u32 + 32 } else { c as u32 };
        let ld: u32 = if 'A' <= d && d <= 'Z' { d as u32 + 32 } else { d as u32 };
        if lc != ld {
            return false;
        }
        i = i + 1;
    }
    true
}

/// Whether `n` occurs in `h` at position `at`.
fn occurs_at_exec(h: &Vec<char>, n: &Vec<char>, at: usize) -> (r: bool)
    requires
        at + n.len() <= h.len(),
    ensures
        r == occurs_at(h@, n@, at as int),
{
    let mut i: usize = 0;
    while i < n.len()
        invariant
            at + n.len() <= h.len(),
            i <= n.len(),
            forall|j: int| 0 <= j < i ==> h@[at + j] == #[trigger] n@[j],
        decreases n.len() - i,
    {
        if h[at + i] != n[i] {
            assert(h@.subrange(at as int, at + n.len())[i as int] != n@[i as int]);
            return false;
        }
        i = i + 1;
    }
    assert(h@.subrange(at as int, at + n.len()) =~= n@);
    true
}

/// Whether `n` occurs anywhere in `h`.
pub fn str_contains(h: &str, n: &str) -> (r: bool)
    ensures
        r == contains(h@, n@),
{
    let hv = chars_of(h);
    let nv = chars_of(n);
    if nv.len() > hv.len() {
        return false;
    }
    let last = hv.len() - nv.len();
    let mut at: usize = 0;
    while at < last
        invariant
            hv@ == h@,
            nv@ == n@,
            last == hv.len() - nv.len(),
            at <= last,
            forall|k: int| 0 <= k < at ==> !occurs_at(h@, n@, k),
        decreases last - at,
    {
        if occurs_at_exec(&hv, &nv, at) {
            return true;
        }
        at = at + 1;
    }
    if occurs_at_exec(&hv, &nv, last) {
        return true;
    }
    assert forall|k: int| !occurs_at(h@, n@, k) by {
        if 0 <= k < at {
        }
    }
    false
}

/// Whether `h` begins with `n`.
pub fn str_starts_with(h: &str, n: &str) -> (r: bool)
    ensures
        r == starts_with(h@, n@),
{
    let hv = chars_of(h);
    let nv = chars_of(n);
    if nv.len() > hv.len() {
        return false;
    }
    occurs_at_exec(&hv, &nv, 0)
}

} // verus!

verus! {

pub open spec fn digit_char(d: nat) -> char {
    ((d % 10) + ('0' as nat)) as char
}

/// The decimal digits of `n`, without leading zeros.
pub open spec fn decimal_text(n: nat) -> Seq<char>
    decreases n,
{
    if n < 10 {
        seq![digit_char(n)]
    } else {
        decimal_text(n / 10).push(digit_char(n % 10))
    }
}

/// `n` written in decimal.
pub fn decimal_string(n: u64) -> (r: String)
    ensures
        r@ == decimal_text(n as nat),
    decreases n,
{
    let d: u8 = (n % 10) as u8;
    let c: char = (d + 48) as char;
    proof {
        assert(c == digit_char(n as nat));
    }
    if n < 10 {
        let mut r = String::new();
        push_char(&mut r, c);
        assert(r@ =~= seq![digit_char(n as nat)]);
        r
    } else {
        let mut r = decimal_string(n / 10);
        push_char(&mut r, c);
        proof {
            assert(digit_char(n as nat) == digit_char((n % 10) as nat));
        }
        r
    }
}

/// Text that `str::parse::<u8>` accepts: an optional `+`, then decimal digits
/// of a value of at most 255.
pub open spec fn u8_digits(f: Seq<char>) -> Seq<char> {
    if f.len() > 0 && f[0] == '+' {
        f.drop_first()
    } else {
        f
    }
}

pub open spec fn u8_text_ok(f: Seq<char>) -> bool {
    u8_digits(f).len() >= 1 && all_digits(u8_digits(f)) && decimal_value(u8_digits(f)) <= 255
}

proof fn lemma_decimal_grows(s: Seq<char>, c: char)
    requires
        all_digits(s.push(c)),
    ensures
        decimal_value(s.push(c)) >= decimal_value(s),
{
    assert(s.push(c).drop_last() =~= s);
}

/// Parses a byte value as `str::parse::<u8>` does.
pub fn parse_u8_text(f: &Vec<char>) -> (r: Option<u8>)
    ensures
        r is Some <==> u8_text_ok(f@),
        r is Some ==> r->0 as nat == decimal_value(u8_digits(f@)),
{
    let start: usize = if f.len() > 0 && f[0] == '+' { 1 } else { 0 };
    let ghost d = u8_digits(f@);
    proof {
        assert(d =~= f@.subrange(start as int, f@.len() as int));
    }
    if start >= f.len() {
        assert(d.len() == 0);
        return None;
    }
    let mut v: u32 = 0;
    let mut i: usize = start;
    while i < f.len()
        invariant
            start <= i <= f.len(),
            d == u8_digits(f@),
            d == f@.subrange(start as int, f@.len() as int),
            all_digits(d.take(i - start)),
            v <= 256,
            v < 256 ==> v as nat == decimal_value(d.take(i - start)),
            v == 256 ==> decimal_value(d.take(i - start)) > 255,
        decreases f.len() - i,
    {
        let c = f[i];
        if !('0' <= c && c <= '9') {
            assert(d[i - start] == c);
            assert(!is_digit(d[i - start]));
            assert(!all_digits(d));
            return None;
        }
        let ghost before = d.take(i - start);
        assert(d.take(i - start + 1) =~= before.push(c));
        assert(d.take(i - start + 1).drop_last() =~= before);
        proof {
            lemma_decimal_grows(before, c);
        }
        if v < 256 {
            let nv = v * 10 + (c as u32 - 48);
            v = if nv > 255 { 256 } else { nv };
        }
        i = i + 1;
    }
    assert(d.take(f.len() - start) =~= d);
    if v > 255 {
        None
    } else {
        Some(v as u8)
    }
}

/// Number of one bits of `n`.
pub open spec fn ones(n: nat) -> nat
    decreases n,
{
    if n == 0 {
        0
    } else {
        n % 2 + ones(n / 2)
    }
}

pub fn count_ones(n: u8) -> (r: u32)
    ensures
        r as nat == ones(n as nat),
        r <= 8,
{
    let mut v: u8 = n;
    let mut c: u32 = 0;
    let mut k: u32 = 0;
    assert(pow2(8) == 256) by {
        reveal_with_fuel(pow2, 9);
    }
    while v > 0
        invariant
            c as nat + ones(v as nat) == ones(n as nat),
            c <= k,
            k <= 8,
            v < pow2((8 - k) as nat),
        decreases v,
    {
        if k == 8 {
            assert(pow2(0) == 1);
        }
        assert(k < 8);
        let ghost p = pow2((8 - k - 1) as nat);
        assert(pow2((8 - k) as nat) == 2 * p);
        assert(v / 2 < p) by (nonlinear_arith)
            requires v < 2 * p;
        assert(ones(v as nat) == (v as nat) % 2 + ones((v as nat) / 2));
        c = c + (v % 2) as u32;
        v = v / 2;
        k = k + 1;
    }
    c
}

pub open spec fn pow2(n: nat) -> nat
    decreases n,
{
    if n == 0 {
        1
    } else {
        2 * pow2((n - 1) as nat)
    }
}

} // verus!

verus! {

/// A character of Unicode's White_Space property.
pub open spec fn is_white_space(c: char) -> bool {
    ('\u{9}' <= c <= '\u{d}') || c == ' ' || c == '\u{85}' || c == '\u{a0}' || c == '\u{1680}'
        || ('\u{2000}' <= c <= '\u{200a}') || c == '\u{2028}' || c == '\u{2029}' || c == '\u{202f}'
        || c == '\u{205f}' || c == '\u{3000}'
}

pub open spec fn trim_start(s: Seq<char>) -> Seq<char>
    decreases s.len(),
{
    if s.len() > 0 && is_white_space(s[0]) {
        trim_start(s.drop_first())
    } else {
        s
    }
}

pub open spec fn trim_end(s: Seq<char>) -> Seq<char>
    decreases s.len(),
{
    if s.len() > 0 && is_white_space(s.last()) {
        trim_end(s.drop_last())
    } else {
        s
    }
}

/// `s` without leading and trailing white space.
pub open spec fn trimmed(s: Seq<char>) -> Seq<char> {
    trim_end(trim_start(s))
}

fn white_space(c: char) -> (r: bool)
    ensures
        r == is_white_space(c),
{
    ('\u{9}' <= c && c <= '\u{d}') || c == ' ' || c == '\u{85}' || c == '\u{a0}' || c == '\u{1680}'
        || ('\u{2000}' <= c && c <= '\u{200a}') || c == '\u{2028}' || c == '\u{2029}' || c == '\u{202f}'
        || c == '\u{205f}' || c == '\u{3000}'
}

/// `s` without leading and trailing white space, as `str::trim` gives it.
pub fn trim_text(s: &str) -> (r: String)
    ensures
        r@ == trimmed(s@),
{
    let v = chars_of(s);
    let n = v.len();
    let mut a: usize = 0;
    assert(v@.subrange(0, n as int) =~= v@);
    while a < n && white_space(v[a])
        invariant
            v@ == s@,
            n == v@.len(),
            a <= n,
            trim_start(v@) == trim_start(v@.subrange(a as int, n as int)),
        decreases n - a,
    {
        assert(v@.subrange(a as int, n as int).drop_first() =~= v@.subrange(a + 1, n as int));
        a = a + 1;
    }
    assert(trim_start(v@.subrange(a as int, n as int)) == v@.subrange(a as int, n as int));
    let mut b: usize = n;
    while b > a && white_space(v[b - 1])
        invariant
            v@ == s@,
            n == v@.len(),
            a <= b <= n,
            trim_end(v@.subrange(a as int, n as int)) == trim_end(v@.subrange(a as int, b as int)),
        decreases b,
    {
        assert(v@.subrange(a as int, b as int).drop_last() =~= v@.subrange(a as int, b - 1));
        b = b - 1;
    }
    assert(trim_end(v@.subrange(a as int, b as int)) == v@.subrange(a as int, b as int));
    let mut w: Vec<char> = Vec::new();
    let mut k: usize = a;
    while k < b
        invariant
            a <= k <= b,
            b <= v@.len(),
            w@ == v@.subrange(a as int, k as int),
        decreases b - k,
    {
        w.push(v[k]);
        k = k + 1;
        assert(w@ =~= v@.subrange(a as int, k as int));
    }
    string_of(&w)
}

/// The pieces joined with `sep` between them.
pub open spec fn joined(parts: Seq<Seq<char>>, sep: Seq<char>) -> Seq<char>
    decreases parts.len(),
{
    if parts.len() == 0 {
        Seq::empty()
    } else if parts.len() == 1 {
        parts[0]
    } else {
        joined(parts.drop_last(), sep) + sep + parts.last()
    }
}

pub open spec fn texts(v: Seq<String>) -> Seq<Seq<char>> {
    v.map_values(|s: String| s@)
}

/// Joins the strings with `sep` between them.
pub fn join_texts(parts: &Vec<String>, sep: &str) -> (r: String)
    ensures
        r@ == joined(texts(parts@), sep@),
{
    let mut r = String::new();
    let mut i: usize = 0;
    while i < parts.len()
        invariant
            i <= parts.len(),
            r@ == joined(texts(parts@.take(i as int)), sep@),
        decreases parts.len() - i,
    {
        let ghost before = texts(parts@.take(i as int));
        assert(texts(parts@.take(i as int + 1)).drop_last() =~= before);
        assert(texts(parts@.take(i as int + 1)).last() == parts@[i as int]@);
        if i > 0 {
            r.append(sep);
        } else {
            assert(before =~= Seq::<Seq<char>>::empty());
        }
        r.append(parts[i].as_str());
        i = i + 1;
    }
    assert(parts@.take(parts@.len() as int) =~= parts@);
    r
}

/// The lines of `s` as `str::lines` gives them: split at `\n`, without a
/// last empty piece, each without a trailing `\r`.
pub open spec fn line_texts(s: Seq<char>) -> Seq<Seq<char>> {
    let f = split(s, '\n');
    let g = if f.last().len() == 0 { f.drop_last() } else { f };
    g.map_values(|l: Seq<char>| if l.len() > 0 && l.last() == '\r' { l.drop_last() } else { l })
}

/// The lines of `s`.
pub fn lines_of(s: &str) -> (r: Vec<String>)
    ensures
        texts(r@) == line_texts(s@),
{
    let chars = chars_of(s);
    let fields = split_fields(&chars, '\n');
    proof {
        lemma_split_nonempty(s@, '\n');
    }
    let ghost f = split(s@, '\n');
    let n = if fields[fields.len() - 1].len() == 0 { fields.len() - 1 } else { fields.len() };
    let ghost g = if f.last().len() == 0 { f.drop_last() } else { f };
    assert(g.len() == n);
    let mut r: Vec<String> = Vec::new();
    let mut i: usize = 0;
    while i < n
        invariant
            n <= fields@.len(),
            fields@.len() == f.len(),
            forall|j: int| 0 <= j < fields@.len() ==> (#[trigger] fields@[j])@ == f[j],
            g.len() == n,
            forall|j: int| 0 <= j < n ==> g[j] == f[j],
            i <= n,
            r@.len() == i,
            forall|j: int| 0 <= j < i ==> (#[trigger] r@[j])@ == (if g[j].len() > 0 && g[j].last() == '\r' { g[j].drop_last() } else { g[j] }),
        decreases n - i,
    {
        let line = &fields[i];
        let k = line.len();
        let mut v: Vec<char> = Vec::new();
        let end = if k > 0 && line[k - 1] == '\r' { k - 1 } else { k };
        let mut q: usize = 0;
        while q < end
            invariant
                end <= line@.len(),
                q <= end,
                v@ == line@.take(q as int),
            decreases end - q,
        {
            v.push(line[q]);
            q = q + 1;
            assert(v@ =~= line@.take(q as int));
        }
        let ghost l = g[i as int];
        assert(line@ == l);
        assert(v@ =~= (if l.len() > 0 && l.last() == '\r' { l.drop_last() } else { l }));
        r.push(string_of(&v));
        i = i + 1;
    }
    assert(texts(r@) =~= line_texts(s@));
    r
}

} // verus!

verus! {

/// Text that `str::parse` accepts for an unsigned integer type whose
/// largest value is `max`: an optional `+`, then decimal digits.
pub open spec fn uint_text_ok(f: Seq<char>, max: nat) -> bool {
    u8_digits(f).len() >= 1 && all_digits(u8_digits(f)) && decimal_value(u8_digits(f)) <= max
}

/// Parses an unsigned integer of at most `max` as `str::parse` does.
pub fn parse_uint_text(f: &Vec<char>, max: u64) -> (r: Option<u64>)
    ensures
        r is Some <==> uint_text_ok(f@, max as nat),
        r is Some ==> r->0 as nat == decimal_value(u8_digits(f@)),
{
    let start: usize = if f.len() > 0 && f[0] == '+' { 1 } else { 0 };
    let ghost d = u8_digits(f@);
    proof {
        assert(d =~= f@.subrange(start as int, f@.len() as int));
    }
    if start >= f.len() {
        assert(d.len() == 0);
        return None;
    }
    let cap: u128 = max as u128 + 1;
    let mut v: u128 = 0;
    let mut i: usize = start;
    while i < f.len()
        invariant
            start <= i <= f.len(),
            cap == max + 1,
            d == u8_digits(f@),
            d == f@.subrange(start as int, f@.len() as int),
            all_digits(d.take(i - start)),
            v <= cap,
            v < cap ==> v as nat == decimal_value(d.take(i - start)),
            v == cap ==> decimal_value(d.take(i - start)) > max,
        decreases f.len() - i,
    {
        let c = f[i];
        if !('0' <= c && c <= '9') {
            assert(d[i - start] == c);
            assert(!is_digit(d[i - start]));
            assert(!all_digits(d));
            return None;
        }
        let ghost before = d.take(i - start);
        assert(d.take(i - start + 1) =~= before.push(c));
        assert(d.take(i - start + 1).drop_last() =~= before);
        proof {
            lemma_decimal_grows(before, c);
        }
        if v < cap {
            let nv = v * 10 + (c as u32 - 48) as u128;
            v = if nv > max as u128 { cap } else { nv };
        }
        i = i + 1;
    }
    assert(d.take(f.len() - start) =~= d);
    if v > max as u128 {
        None
    } else {
        Some(v as u64)
    }
}

} // verus!
