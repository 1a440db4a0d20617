//! Character-level helpers on strings: building, comparing and printing numbers.

use vstd::prelude::*;
use crate::strmap::views_of;

verus! {

broadcast use vstd::string::group_string_axioms;

/// The character of a decimal digit `d` (`0 <= d < 10`).
pub open spec fn digit_char(d: nat) -> char {
    (48 + d) as char
}

/// The decimal representation of `n`, without sign or leading zeros.
pub open spec fn decimal(n: nat) -> Seq<char>
    decreases n,
{
    if n < 10 {
        seq![digit_char(n)]
    } else {
        decimal(n / 10).push(digit_char(n % 10))
    }
}

/// The decimal representation of a signed integer, with a leading `-` when negative.
pub open spec fn signed_decimal(n: int) -> Seq<char> {
    if n < 0 {
        seq!['-'] + decimal((-n) as nat)
    } else {
        decimal(n as nat)
    }
}

/// Appends one character to a string (std's `String::push`).
#[verifier::external_body]
pub(crate) fn push_char(s: &mut String, c: char)
    ensures
        final(s)@ == old(s)@.push(c),
{
    s.push(c);
}

/// Appends a string slice.
pub fn push_str(s: &mut String, t: &str)
    ensures
        final(s)@ == old(s)@ + t@,
{
    s.append(t);
}

/// An owned copy of a string slice.
pub fn owned(t: &str) -> (s: String)
    ensures
        s@ == t@,
{
    String::from_str(t)
}

/// The characters of `s`, in order.
pub fn chars_of(s: &str) -> (v: Vec<char>)
    ensures
        v@ == s@,
{
    let mut v: Vec<char> = Vec::new();
    for c in it: s.chars()
        invariant
            it.seq() == s@,
            v@ == it.seq().take(it.index() as int),
    {
        v.push(c);
        assert(v@ == it.seq().take(it.index() + 1));
    }
    v
}

/// Appends the characters `v[from..to]`.
pub fn push_chars(s: &mut String, v: &Vec<char>, from: usize, to: usize)
    requires
        from <= to <= v.len(),
    ensures
        final(s)@ == old(s)@ + v@.subrange(from as int, to as int),
{
    let mut i = from;
    while i < to
        invariant
            from <= i <= to <= v.len(),
            s@ == old(s)@ + v@.subrange(from as int, i as int),
        decreases to - i,
    {
        push_char(s, v[i]);
        i = i + 1;
        assert(v@.subrange(from as int, i as int) == v@.subrange(from as int, i - 1).push(v@[i - 1]));
    }
}

/// A string holding the characters `v[from..to]`.
pub fn string_of_range(v: &Vec<char>, from: usize, to: usize) -> (s: String)
    requires
        from <= to <= v.len(),
    ensures
        s@ == v@.subrange(from as int, to as int),
{
    let mut s = String::new();
    push_chars(&mut s, v, from, to);
    s
}

/// Whether two string slices hold the same characters.
pub fn str_eq(a: &str, b: &str) -> (r: bool)
    ensures
        r == (a@ == b@),
{
    let x = String::from_str(a);
    let y = String::from_str(b);
    x == y
}

/// Appends the decimal representation of `n`.
pub fn push_u64(s: &mut String, n: u64)
    ensures
        final(s)@ == old(s)@ + decimal(n as nat),
    decreases n,
{
    if n >= 10 {
        push_u64(s, n / 10);
    }
    let d: u8 = (n % 10) as u8;
    let c: char = (48u8 + d) as char;
    push_char(s, c);
    proof {
        if n >= 10 {
            assert(decimal(n as nat) == decimal((n / 10) as nat).push(digit_char((n % 10) as nat)));
        }
    }
}

/// Appends the decimal representation of a wide `n`.
pub fn push_u128(s: &mut String, n: u128)
    ensures
        final(s)@ == old(s)@ + decimal(n as nat),
    decreases n,
{
    if n >= 10 {
        push_u128(s, n / 10);
    }
    let d: u8 = (n % 10) as u8;
    let c: char = (48u8 + d) as char;
    push_char(s, c);
    proof {
        if n >= 10 {
            assert(decimal(n as nat) == decimal((n / 10) as nat).push(digit_char((n % 10) as nat)));
        }
    }
}

/// Appends the decimal representation of a signed `n`.
pub fn push_i64(s: &mut String, n: i64)
    ensures
        final(s)@ == old(s)@ + signed_decimal(n as int),
{
    if n < 0 {
        push_char(s, '-');
        let m: u64 = if n == i64::MIN { 9223372036854775808u64 } else { (-n) as u64 };
        push_u64(s, m);
        assert(s@ == old(s)@ + (seq!['-'] + decimal((-n) as nat)));
    } else {
        push_u64(s, n as u64);
    }
}

/// The decimal representation of `n` as a string.
pub fn u64_to_string(n: u64) -> (s: String)
    ensures
        s@ == decimal(n as nat),
{
    let mut s = String::new();
    push_u64(&mut s, n);
    s
}


/// The pieces of `s` between occurrences of `c`, empty pieces included
/// (what `str::split` with a character yields).
pub open spec fn split_spec(s: Seq<char>, c: char) -> Seq<Seq<char>>
    decreases s.len(),
{
    if s.len() == 0 {
        seq![Seq::<char>::empty()]
    } else {
        let prev = split_spec(s.drop_last(), c);
        if s.last() == c {
            prev.push(Seq::<char>::empty())
        } else {
            prev.update(prev.len() - 1, prev.last().push(s.last()))
        }
    }
}

/// A split always has at least one piece.
pub proof fn lemma_split_nonempty(s: Seq<char>, c: char)
    ensures
        split_spec(s, c).len() >= 1,
    decreases s.len(),
{
    if s.len() > 0 {
        lemma_split_nonempty(s.drop_last(), c);
    }
}

/// Splits `s` at every occurrence of `c`.
pub fn split_on(s: &str, c: char) -> (r: Vec<String>)
    ensures
        views_of(r@) == split_spec(s@, c),
        r@.len() >= 1,
{
    let v = chars_of(s);
    let mut pieces: Vec<String> = Vec::new();
    let mut cur = String::new();
    let mut i: usize = 0;
    assert(v@.take(0) =~= Seq::<char>::empty());
    assert(views_of(pieces@).push(cur@) =~= seq![Seq::<char>::empty()]);
    while i < v.len()
        invariant
            i <= v@.len(),
            v@ == s@,
            split_spec(v@.take(i as int), c) == views_of(pieces@).push(cur@),
        decreases v@.len() - i,
    {
        let ghost prev = split_spec(v@.take(i as int), c);
        assert(v@.take(i + 1).drop_last() =~= v@.take(i as int));
        assert(v@.take(i + 1).last() == v@[i as int]);
        if v[i] == c {
            let done = cur;
            pieces.push(done);
            cur = String::new();
            assert(views_of(pieces@) =~= prev);
        } else {
            push_char(&mut cur, v[i]);
            assert(views_of(pieces@).push(cur@) =~= prev.update(prev.len() - 1, prev.last().push(v@[i as int])));
        }
        i = i + 1;
    }
    assert(v@.take(v@.len() as int) =~= v@);
    pieces.push(cur);
    assert(views_of(pieces@) =~= split_spec(s@, c));
    pieces
}

/// A line without the carriage return that ends it, if any.
pub open spec fn strip_cr(l: Seq<char>) -> Seq<char> {
    if l.len() > 0 && l.last() == '\r' {
        l.drop_last()
    } else {
        l
    }
}

/// The lines of `s` as `str::lines` gives them: the pieces between newlines, each
/// without a carriage return just before its newline, and no empty piece after a
/// final newline.
pub open spec fn lines_spec(s: Seq<char>) -> Seq<Seq<char>> {
    let parts = split_spec(s, '\n');
    let body = parts.drop_last().map_values(|l: Seq<char>| strip_cr(l));
    if parts.last().len() == 0 {
        body
    } else {
        body.push(parts.last())
    }
}

/// Splits `s` into lines.
pub fn lines_of(s: &str) -> (r: Vec<String>)
    ensures
        views_of(r@) == lines_spec(s@),
{
    let parts = split_on(s, '\n');
    let ghost pv = views_of(parts@);
    let n = parts.len();
    let mut r: Vec<String> = Vec::new();
    let mut i: usize = 0;
    while i + 1 < n
        invariant
            n == parts@.len() >= 1,
            pv == views_of(parts@),
            i + 1 <= n,
            views_of(r@) == pv.take(i as int).map_values(|l: Seq<char>| strip_cr(l)),
        decreases n - i,
    {
        let v = chars_of(parts[i].as_str());
        let l = v.len();
        let line = if l > 0 && v[l - 1] == '\r' {
            string_of_range(&v, 0, l - 1)
        } else {
            string_of_range(&v, 0, l)
        };
        proof {
            assert(pv[i as int] == v@);
            assert(v@.subrange(0, l as int) =~= v@);
            assert(v@.subrange(0, l - 1) =~= v@.drop_last());
        }
        let ghost before = views_of(r@);
        r.push(line);
        assert(views_of(r@) =~= before.push(strip_cr(pv[i as int])));
        assert(pv.take(i + 1).map_values(|l: Seq<char>| strip_cr(l)) =~= pv.take(i as int).map_values(
            |l: Seq<char>| strip_cr(l),
        ).push(strip_cr(pv[i as int])));
        i = i + 1;
    }
    assert(pv.take(n - 1) =~= pv.drop_last());
    let v = chars_of(parts[n - 1].as_str());
    assert(pv.last() == v@);
    if v.len() > 0 {
        let ghost before = views_of(r@);
        r.push(string_of_range(&v, 0, v.len()));
        assert(v@.subrange(0, v@.len() as int) =~= v@);
        assert(views_of(r@) =~= before.push(pv.last()));
    }
    r
}

/// The items of `items` with `sep` between consecutive ones (what `join` yields).
pub open spec fn join_with(items: Seq<Seq<char>>, sep: Seq<char>) -> Seq<char>
    decreases items.len(),
{
    if items.len() == 0 {
        Seq::empty()
    } else if items.len() == 1 {
        items[0]
    } else {
        join_with(items.drop_last(), sep) + sep + items.last()
    }
}

/// Appends the items of `items` with `sep` between consecutive ones.
pub fn push_joined(s: &mut String, items: &Vec<String>, sep: &str)
    ensures
        final(s)@ == old(s)@ + join_with(views_of(items@), sep@),
{
    let ghost iv = views_of(items@);
    let mut i: usize = 0;
    assert(iv.take(0) =~= Seq::<Seq<char>>::empty());
    assert(s@ =~= old(s)@ + join_with(iv.take(0), sep@));
    while i < items.len()
        invariant
            i <= items@.len(),
            iv == views_of(items@),
            s@ == old(s)@ + join_with(iv.take(i as int), sep@),
        decreases items@.len() - i,
    {
        let ghost before = s@;
        assert(iv.take(i + 1).drop_last() =~= iv.take(i as int));
        assert(iv[i as int] == items@[i as int]@);
        if i > 0 {
            push_str(s, sep);
        }
        push_str(s, items[i].as_str());
        proof {
            if i == 0 {
                assert(iv.take(1) =~= seq![iv[0]]);
            }
        }
        assert(s@ =~= old(s)@ + join_with(iv.take(i + 1), sep@));
        i = i + 1;
    }
    assert(iv.take(items@.len() as int) =~= iv);
}

/// `n` copies of `c`.
pub open spec fn repeat_char(c: char, n: nat) -> Seq<char> {
    Seq::new(n, |i: int| c)
}

/// Appends `n` copies of `c`.
pub fn push_repeat(s: &mut String, c: char, n: usize)
    ensures
        final(s)@ == old(s)@ + repeat_char(c, n as nat),
{
    let mut i: usize = 0;
    while i < n
        invariant
            i <= n,
            s@ == old(s)@ + repeat_char(c, i as nat),
        decreases n - i,
    {
        push_char(s, c);
        i = i + 1;
        assert(s@ =~= old(s)@ + repeat_char(c, i as nat));
    }
}

/// The white-space separated words of `s`, in order (what `str::split_whitespace` yields).
pub open spec fn words(s: Seq<char>) -> Seq<Seq<char>>
    decreases s.len(),
{
    if s.len() == 0 {
        Seq::empty()
    } else {
        let r = words(s.drop_last());
        let c = s.last();
        if is_ws(c) {
            r
        } else if s.len() >= 2 && !is_ws(s[s.len() - 2]) && r.len() > 0 {
            r.update(r.len() - 1, r.last().push(c))
        } else {
            r.push(seq![c])
        }
    }
}

/// The white-space separated words of `s`.
pub fn words_of(s: &str) -> (r: Vec<String>)
    ensures
        views_of(r@) == words(s@),
{
    let v = chars_of(s);
    let mut out: Vec<String> = Vec::new();
    let mut cur = String::new();
    let mut in_word = false;
    let mut i: usize = 0;
    assert(v@.take(0) =~= Seq::<char>::empty());
    while i < v.len()
        invariant
            i <= v@.len(),
            v@ == s@,
            in_word == (i > 0 && !is_ws(v@[i - 1])),
            in_word ==> words(v@.take(i as int)) == views_of(out@).push(cur@) && cur@.len() > 0,
            !in_word ==> words(v@.take(i as int)) == views_of(out@) && cur@.len() == 0,
        decreases v@.len() - i,
    {
        let c = v[i];
        let ghost t1 = v@.take(i + 1);
        assert(t1.drop_last() =~= v@.take(i as int));
        assert(t1.last() == c);
        if is_whitespace(c) {
            if in_word {
                let done = cur;
                let ghost before = views_of(out@);
                out.push(done);
                assert(views_of(out@) =~= before.push(done@));
                cur = String::new();
            }
            in_word = false;
        } else {
            if in_word {
                assert(t1[i - 1] == v@[i - 1]);
                let ghost w0 = views_of(out@).push(cur@);
                push_char(&mut cur, c);
                assert(views_of(out@).push(cur@) =~= w0.update(w0.len() - 1, w0.last().push(c)));
            } else {
                push_char(&mut cur, c);
                assert(cur@ =~= seq![c]);
                if i > 0 {
                    assert(t1[i - 1] == v@[i - 1]);
                }
            }
            in_word = true;
        }
        i = i + 1;
    }
    assert(v@.take(v@.len() as int) =~= v@);
    if in_word {
        let ghost before = views_of(out@);
        out.push(cur);
        assert(views_of(out@) =~= before.push(cur@));
    }
    out
}

/// The part of `s` before the first `c` (all of `s` when there is none).
pub open spec fn before_first(s: Seq<char>, c: char) -> Seq<char> {
    split_spec(s, c)[0]
}

/// Whether `c` is white space (Unicode `White_Space`, as `char::is_whitespace`).
pub open spec fn is_ws(c: char) -> bool {
    ||| (9 <= c as u32 <= 13)
    ||| c as u32 == 32
    ||| c as u32 == 0x85
    ||| c as u32 == 0xA0
    ||| c as u32 == 0x1680
    ||| (0x2000 <= c as u32 <= 0x200A)
    ||| c as u32 == 0x2028
    ||| c as u32 == 0x2029
    ||| c as u32 == 0x202F
    ||| c as u32 == 0x205F
    ||| c as u32 == 0x3000
}

/// Whether `c` is white space.
pub fn is_whitespace(c: char) -> (b: bool)
    ensures
        b == is_ws(c),
{
    let u = c as u32;
    (9 <= u && u <= 13) || u == 32 || u == 0x85 || u == 0xA0 || u == 0x1680 || (0x2000 <= u && u
        <= 0x200A) || u == 0x2028 || u == 0x2029 || u == 0x202F || u == 0x205F || u == 0x3000
}

/// `s` without leading white space.
pub open spec fn trim_start_spec(s: Seq<char>) -> Seq<char>
    decreases s.len(),
{
    if s.len() > 0 && is_ws(s[0]) {
        trim_start_spec(s.drop_first())
    } else {
        s
    }
}

/// `s` without trailing white space.
pub open spec fn trim_end_spec(s: Seq<char>) -> Seq<char>
    decreases s.len(),
{
    if s.len() > 0 && is_ws(s.last()) {
        trim_end_spec(s.drop_last())
    } else {
        s
    }
}

/// `s` without leading and trailing white space (what `str::trim` yields).
pub open spec fn trim_spec(s: Seq<char>) -> Seq<char> {
    trim_end_spec(trim_start_spec(s))
}

/// The positions that bound the trimmed part of `v[from..to]`.
pub fn trim_bounds(v: &Vec<char>, from: usize, to: usize) -> (r: (usize, usize))
    requires
        from <= to <= v@.len(),
    ensures
        from <= r.0 <= r.1 <= to,
        v@.subrange(r.0 as int, r.1 as int) == trim_spec(v@.subrange(from as int, to as int)),
{
    let mut a = from;
    while a < to && is_whitespace(v[a])
        invariant
            from <= a <= to <= v@.len(),
            trim_start_spec(v@.subrange(from as int, to as int)) == trim_start_spec(
                v@.subrange(a as int, to as int),
            ),
        decreases to - a,
    {
        assert(v@.subrange(a as int, to as int).drop_first() =~= v@.subrange(a + 1, to as int));
        a = a + 1;
    }
    let mut b = to;
    while b > a && is_whitespace(v[b - 1])
        invariant
            a <= b <= to <= v@.len(),
            trim_end_spec(v@.subrange(a as int, to as int)) == trim_end_spec(
                v@.subrange(a as int, b as int),
            ),
        decreases b - a,
    {
        assert(v@.subrange(a as int, b as int).drop_last() =~= v@.subrange(a as int, b - 1));
        b = b - 1;
    }
    (a, b)
}

/// `s` with leading and trailing white space removed.
pub fn trim(s: &str) -> (r: String)
    ensures
        r@ == trim_spec(s@),
{
    let v = chars_of(s);
    let (a, b) = trim_bounds(&v, 0, v.len());
    assert(v@.subrange(0, v@.len() as int) =~= v@);
    string_of_range(&v, a, b)
}

/// The leading run of `s` that holds no white space.
pub open spec fn take_word(s: Seq<char>) -> Seq<char>
    decreases s.len(),
{
    if s.len() == 0 || is_ws(s[0]) {
        Seq::<char>::empty()
    } else {
        seq![s[0]] + take_word(s.drop_first())
    }
}

/// The first white-space separated word of `s`, or nothing
/// (what `s.split_whitespace().next().unwrap_or("")` yields).
pub open spec fn first_word(s: Seq<char>) -> Seq<char> {
    take_word(trim_start_spec(s))
}

/// The first white-space separated word of `s`.
pub fn first_word_of(s: &str) -> (r: String)
    ensures
        r@ == first_word(s@),
{
    let v = chars_of(s);
    let n = v.len();
    let mut a: usize = 0;
    assert(v@.subrange(0, n as int) =~= v@);
    while a < n && is_whitespace(v[a])
        invariant
            a <= n == v@.len(),
            v@ == s@,
            trim_start_spec(s@) == trim_start_spec(v@.subrange(a as int, n as int)),
        decreases n - a,
    {
        assert(v@.subrange(a as int, n as int).drop_first() =~= v@.subrange(a + 1, n as int));
        a = a + 1;
    }
    let mut b = a;
    while b < n && !is_whitespace(v[b])
        invariant
            a <= b <= n == v@.len(),
            take_word(v@.subrange(a as int, n as int)) == v@.subrange(a as int, b as int) + take_word(
                v@.subrange(b as int, n as int),
            ),
        decreases n - b,
    {
        assert(v@.subrange(b as int, n as int).drop_first() =~= v@.subrange(b + 1, n as int));
        assert(v@.subrange(a as int, b + 1) =~= v@.subrange(a as int, b as int) + seq![v@[b as int]]);
        b = b + 1;
    }
    assert(v@.subrange(a as int, b as int) + Seq::<char>::empty() =~= v@.subrange(a as int, b as int));
    string_of_range(&v, a, b)
}

/// Whether `s` begins with `p`.
pub open spec fn starts_with_spec(s: Seq<char>, p: Seq<char>) -> bool {
    p.len() <= s.len() && s.take(p.len() as int) == p
}

/// Whether `s` begins with `p`.
pub fn starts_with(s: &Vec<char>, p: &str) -> (b: bool)
    ensures
        b == starts_with_spec(s@, p@),
{
    let pv = chars_of(p);
    if pv.len() > s.len() {
        return false;
    }
    let mut i: usize = 0;
    while i < pv.len()
        invariant
            i <= pv@.len() <= s@.len(),
            pv@ == p@,
            forall|j: int| 0 <= j < i ==> s@[j] == pv@[j],
        decreases pv@.len() - i,
    {
        if s[i] != pv[i] {
            return false;
        }
        i = i + 1;
    }
    assert(s@.take(pv@.len() as int) =~= pv@);
    true
}

/// Whether `p` occurs in `s` at position `i`.
pub open spec fn occurs_at(s: Seq<char>, p: Seq<char>, i: int) -> bool {
    0 <= i && i + p.len() <= s.len() && s.subrange(i, i + p.len()) == p
}

/// Whether `p` occurs anywhere in `s` (what `str::contains` with a string pattern yields).
pub open spec fn contains_spec(s: Seq<char>, p: Seq<char>) -> bool {
    exists|i: int| occurs_at(s, p, i)
}

/// Whether `p` occurs anywhere in `s`.
pub fn contains_str(s: &Vec<char>, p: &Vec<char>) -> (b: bool)
    ensures
        b == contains_spec(s@, p@),
{
    if p.len() > s.len() {
        assert forall|i: int| !occurs_at(s@, p@, i) by {}
        return false;
    }
    if p.len() == 0 {
        assert(s@.subrange(0, 0) =~= p@);
        assert(occurs_at(s@, p@, 0));
        return true;
    }
    let mut i: usize = 0;
    let last = s.len() - p.len();
    while i <= last
        invariant
            0 < p@.len() <= s@.len(),
            s@.len() == s.len(),
            last == s@.len() - p@.len(),
            i <= last + 1,
            forall|j: int| 0 <= j < i ==> !occurs_at(s@, p@, j),
        decreases last + 1 - i,
    {
        let mut k: usize = 0;
        let mut same = true;
        while k < p.len()
            invariant
                i + p@.len() <= s@.len(),
                s@.len() == s.len(),
                p@.len() == p.len(),
                i <= last,
                last == s@.len() - p@.len(),
                k <= p@.len(),
                same == (forall|j: int| 0 <= j < k ==> s@[i + j] == p@[j]),
            decreases p@.len() - k,
        {
            if s[i + k] != p[k] {
                same = false;
            }
            k = k + 1;
        }
        if same {
            assert(s@.subrange(i as int, i + p@.len()) =~= p@);
            assert(occurs_at(s@, p@, i as int));
            return true;
        }
        assert(!occurs_at(s@, p@, i as int)) by {
            if s@.subrange(i as int, i + p@.len()) == p@ {
                assert forall|j: int| 0 <= j < p@.len() implies s@[i + j] == p@[j] by {
                    assert(s@.subrange(i as int, i + p@.len())[j] == s@[i + j]);
                }
            }
        }
        i = i + 1;
    }
    assert forall|j: int| !occurs_at(s@, p@, j) by {
        if 0 <= j && j < i {
        }
    }
    false
}

/// `base` joined with the path `comp` (what `Path::join` yields on Unix): an absolute
/// `comp` replaces `base`, otherwise a `/` separates them unless `base` is empty or ends in one.
pub open spec fn join_spec(base: Seq<char>, comp: Seq<char>) -> Seq<char> {
    if comp.len() > 0 && comp[0] == '/' {
        comp
    } else if base.len() > 0 && base.last() != '/' {
        base + seq!['/'] + comp
    } else {
        base + comp
    }
}

/// Joins a path component onto a base path.
pub fn path_join(base: &str, comp: &str) -> (r: String)
    ensures
        r@ == join_spec(base@, comp@),
{
    let c = chars_of(comp);
    if c.len() > 0 && c[0] == '/' {
        return owned(comp);
    }
    let b = chars_of(base);
    let mut r = owned(base);
    if b.len() > 0 && b[b.len() - 1] != '/' {
        push_char(&mut r, '/');
    }
    push_str(&mut r, comp);
    r
}

/// Lowercase form of a string as std's `str::to_lowercase` computes it.
pub uninterp spec fn lowercase(s: Seq<char>) -> Seq<char>;

/// Whether every character is ASCII.
pub open spec fn is_ascii_text(s: Seq<char>) -> bool {
    forall|i: int| 0 <= i < s.len() ==> (#[trigger] s[i] as int) < 128
}

/// An ASCII upper-case letter made lower-case; any other character unchanged.
pub open spec fn ascii_lower_char(c: char) -> char {
    if 65 <= (c as int) <= 90 {
        ((c as int) + 32) as char
    } else {
        c
    }
}

/// The string with each ASCII upper-case letter made lower-case.
pub open spec fn ascii_lowercase(s: Seq<char>) -> Seq<char> {
    s.map_values(|c: char| ascii_lower_char(c))
}

/// Calls `str::to_lowercase`; the result is `lowercase` of the argument (a full
/// Unicode case mapping that this library does not spell out). On ASCII text the
/// mapping turns `A`..`Z` into `a`..`z` and keeps every other character.
#[verifier::external_body]
pub(crate) fn to_lowercase(s: &str) -> (r: String)
    ensures
        r@ == lowercase(s@),
        is_ascii_text(s@) ==> r@ == ascii_lowercase(s@),
{
    s.to_lowercase()
}

} // verus!
