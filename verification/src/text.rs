//! Character and string helpers shared by the parser, the maps and the
//! narrative output. Strings are modelled by their sequence of characters.

use vstd::prelude::*;
use vstd::string::*;

verus! {

/// Whether `c` is one of the Unicode white-space characters.
pub open spec fn is_space(c: char) -> bool {
    let n = c as u32;
    ||| 0x09 <= n <= 0x0D
    ||| n == 0x20
    ||| n == 0x85
    ||| n == 0xA0
    ||| n == 0x1680
    ||| 0x2000 <= n <= 0x200A
    ||| n == 0x2028
    ||| n == 0x2029
    ||| n == 0x202F
    ||| n == 0x205F
    ||| n == 0x3000
}

/// Whether `c` is one of the Unicode white-space characters.
pub fn is_whitespace(c: char) -> (r: bool)
    ensures
        r == is_space(c),
{
    let n: u32 = c as u32;
    (0x09 <= n && n <= 0x0D) || n == 0x20 || n == 0x85 || n == 0xA0 || n == 0x1680 || (0x2000 <= n
        && n <= 0x200A) || n == 0x2028 || n == 0x2029 || n == 0x202F || n == 0x205F || n == 0x3000
}

/// The ASCII lower-case form of `c`: `A`..`Z` map to `a`..`z`, every other
/// character is left alone.
pub open spec fn lower_char(c: char) -> char {
    if 'A' <= c && c <= 'Z' {
        ((c as u8) + 32) as u8 as char
    } else {
        c
    }
}

/// The ASCII lower-case form of `c`.
pub fn ascii_lower(c: char) -> (r: char)
    ensures
        r == lower_char(c),
{
    if 'A' <= c && c <= 'Z' {
        let b: u8 = c as u8;
        (b + 32) as char
    } else {
        c
    }
}

/// `s` with every character in ASCII lower case.
pub open spec fn lower_ascii(s: Seq<char>) -> Seq<char> {
    Seq::new(s.len(), |i: int| lower_char(s[i]))
}

/// The characters of `s`, in order.
pub fn chars_of(s: &str) -> (out: Vec<char>)
    ensures
        out@ == s@,
{
    let mut out: Vec<char> = Vec::new();
    for c in it: s.chars()
        invariant
            out@ == it.seq().subrange(0, it.index@),
    {
        out.push(c);
    }
    out
}


/// Whether `a` and `b` agree on every position below `n`.
pub open spec fn same_prefix(a: Seq<char>, b: Seq<char>, n: int) -> bool {
    forall|j: int| 0 <= j < n ==> a[j] == b[j]
}

/// Whether `a` comes before `b` when both are read from position `i` on:
/// the first differing character decides by code point, and a proper prefix
/// comes first.
pub open spec fn lex_lt_from(a: Seq<char>, b: Seq<char>, i: int) -> bool
    decreases a.len() - i,
{
    if i < 0 || i >= b.len() {
        false
    } else if i >= a.len() {
        true
    } else if a[i] != b[i] {
        (a[i] as u32) < (b[i] as u32)
    } else {
        lex_lt_from(a, b, i + 1)
    }
}

/// Lexicographic order on strings, by code point.
pub open spec fn lex_lt(a: Seq<char>, b: Seq<char>) -> bool {
    lex_lt_from(a, b, 0)
}

proof fn lemma_char_order(x: char, y: char)
    ensures
        x != y ==> ((x as u32) < (y as u32) || (y as u32) < (x as u32)),
{
}

proof fn lemma_lex_trichotomy_from(a: Seq<char>, b: Seq<char>, i: int)
    requires
        0 <= i,
        i <= a.len(),
        i <= b.len(),
        same_prefix(a, b, i),
    ensures
        lex_lt_from(a, b, i) || a == b || lex_lt_from(b, a, i),
        !(lex_lt_from(a, b, i) && lex_lt_from(b, a, i)),
        a == b ==> !lex_lt_from(a, b, i),
    decreases a.len() - i,
{
    if i >= a.len() || i >= b.len() {
        if i >= a.len() && i >= b.len() {
            assert(a =~= b);
        }
    } else if a[i] != b[i] {
        lemma_char_order(a[i], b[i]);
    } else {
        lemma_lex_trichotomy_from(a, b, i + 1);
    }
}

/// Of two strings exactly one holds: the first comes before the second, they
/// are equal, or the second comes before the first.
pub proof fn lemma_lex_trichotomy(a: Seq<char>, b: Seq<char>)
    ensures
        lex_lt(a, b) || a == b || lex_lt(b, a),
        !(lex_lt(a, b) && lex_lt(b, a)),
        !(lex_lt(a, b) && a == b),
{
    lemma_lex_trichotomy_from(a, b, 0);
    if a == b {
        lemma_lex_trichotomy_from(b, a, 0);
    }
}

proof fn lemma_lex_transitive_from(a: Seq<char>, b: Seq<char>, c: Seq<char>, i: int)
    requires
        0 <= i,
        lex_lt_from(a, b, i),
        lex_lt_from(b, c, i),
    ensures
        lex_lt_from(a, c, i),
    decreases b.len() - i,
{
    if i < a.len() && i < b.len() && i < c.len() && a[i] == b[i] && b[i] == c[i] {
        lemma_lex_transitive_from(a, b, c, i + 1);
    }
}

/// Lexicographic order is transitive.
pub proof fn lemma_lex_transitive(a: Seq<char>, b: Seq<char>, c: Seq<char>)
    requires
        lex_lt(a, b),
        lex_lt(b, c),
    ensures
        lex_lt(a, c),
{
    lemma_lex_transitive_from(a, b, c, 0);
}

/// The three outcomes of comparing two strings.
#[derive(Clone, Copy, Debug, PartialEq, Eq, Structural)]
pub enum Lex {
    Before,
    Same,
    After,
}

/// Compares `a` with `b` in lexicographic order.
pub fn lex_compare(a: &str, b: &str) -> (r: Lex)
    ensures
        r == Lex::Before <==> lex_lt(a@, b@),
        r == Lex::Same <==> a@ == b@,
        r == Lex::After <==> lex_lt(b@, a@),
{
    let x = chars_of(a);
    let y = chars_of(b);
    proof {
        lemma_lex_trichotomy(a@, b@);
    }
    let mut i: usize = 0;
    while i < x.len() && i < y.len()
        invariant
            x@ == a@,
            y@ == b@,
            i <= x.len(),
            i <= y.len(),
            same_prefix(a@, b@, i as int),
            lex_lt_from(a@, b@, i as int) == lex_lt(a@, b@),
            lex_lt_from(b@, a@, i as int) == lex_lt(b@, a@),
        decreases x.len() - i,
    {
        if x[i] != y[i] {
            proof {
                lemma_char_order(x@[i as int], y@[i as int]);
            }
            let cx: u32 = x[i] as u32;
            let cy: u32 = y[i] as u32;
            if cx < cy {
                return Lex::Before;
            } else {
                return Lex::After;
            }
        }
        i = i + 1;
    }
    if i < y.len() {
        Lex::Before
    } else if i < x.len() {
        Lex::After
    } else {
        assert(a@ =~= b@);
        Lex::Same
    }
}

/// Whether `a` and `b` hold the same characters.
pub fn str_equal(a: &str, b: &str) -> (r: bool)
    ensures
        r == (a@ == b@),
{
    lex_compare(a, b) == Lex::Same
}


/// The first position at or after `i` that holds no white space, or the
/// length of `s` when only white space follows.
pub open spec fn skip_space(s: Seq<char>, i: int) -> int
    decreases s.len() - i,
{
    if 0 <= i < s.len() && is_space(s[i]) {
        skip_space(s, i + 1)
    } else {
        i
    }
}

/// The end of `s[lo..hi]` once the white space at its end is cut off.
pub open spec fn back_space(s: Seq<char>, lo: int, hi: int) -> int
    decreases hi - lo,
{
    if lo < hi <= s.len() && is_space(s[hi - 1]) {
        back_space(s, lo, hi - 1)
    } else {
        hi
    }
}

/// The first position in `i..hi` that holds white space, or `hi`.
pub open spec fn word_end(s: Seq<char>, i: int, hi: int) -> int
    decreases hi - i,
{
    if 0 <= i < hi <= s.len() && !is_space(s[i]) {
        word_end(s, i + 1, hi)
    } else {
        i
    }
}

/// `s` without the white space at its two ends.
pub open spec fn trimmed(s: Seq<char>) -> Seq<char> {
    let a = skip_space(s, 0);
    s.subrange(a, back_space(s, a, s.len() as int))
}

/// Whether `s` holds nothing but white space.
pub open spec fn blank(s: Seq<char>) -> bool {
    forall|i: int| 0 <= i < s.len() ==> is_space(#[trigger] s[i])
}

/// Where the white space that starts at `i` ends.
pub proof fn lemma_skip_space_bounds(s: Seq<char>, i: int)
    requires
        0 <= i <= s.len(),
    ensures
        i <= skip_space(s, i) <= s.len(),
        forall|j: int| i <= j < skip_space(s, i) ==> is_space(#[trigger] s[j]),
        skip_space(s, i) < s.len() ==> !is_space(s[skip_space(s, i)]),
    decreases s.len() - i,
{
    if i < s.len() && is_space(s[i]) {
        lemma_skip_space_bounds(s, i + 1);
    }
}

/// Where the white space that ends at `hi` starts.
pub proof fn lemma_back_space_bounds(s: Seq<char>, lo: int, hi: int)
    requires
        0 <= lo <= hi <= s.len(),
    ensures
        lo <= back_space(s, lo, hi) <= hi,
        forall|j: int| back_space(s, lo, hi) <= j < hi ==> is_space(#[trigger] s[j]),
        lo < back_space(s, lo, hi) ==> !is_space(s[back_space(s, lo, hi) - 1]),
    decreases hi - lo,
{
    if lo < hi && is_space(s[hi - 1]) {
        lemma_back_space_bounds(s, lo, hi - 1);
    }
}

/// Where the word that starts at `i` ends.
pub proof fn lemma_word_end_bounds(s: Seq<char>, i: int, hi: int)
    requires
        0 <= i <= hi <= s.len(),
    ensures
        i <= word_end(s, i, hi) <= hi,
        forall|j: int| i <= j < word_end(s, i, hi) ==> !is_space(#[trigger] s[j]),
        word_end(s, i, hi) < hi ==> is_space(s[word_end(s, i, hi)]),
    decreases hi - i,
{
    if i < hi && !is_space(s[i]) {
        lemma_word_end_bounds(s, i + 1, hi);
    }
}

/// A string is blank exactly when trimming leaves nothing of it.
pub proof fn lemma_blank_trimmed(s: Seq<char>)
    ensures
        blank(s) <==> trimmed(s).len() == 0,
        blank(s) <==> skip_space(s, 0) == s.len(),
{
    let a = skip_space(s, 0);
    lemma_skip_space_bounds(s, 0);
    lemma_back_space_bounds(s, a, s.len() as int);
}

/// The first position at or after `from` that holds no white space.
pub fn skip_spaces(v: &Vec<char>, from: usize) -> (r: usize)
    requires
        from <= v.len(),
    ensures
        r == skip_space(v@, from as int),
        from <= r <= v.len(),
{
    let mut i: usize = from;
    while i < v.len() && is_whitespace(v[i])
        invariant
            from <= i <= v.len(),
            skip_space(v@, i as int) == skip_space(v@, from as int),
        decreases v.len() - i,
    {
        i = i + 1;
    }
    i
}

/// The end of `v[lo..hi]` once the white space at its end is cut off.
pub fn back_spaces(v: &Vec<char>, lo: usize, hi: usize) -> (r: usize)
    requires
        lo <= hi <= v.len(),
    ensures
        r == back_space(v@, lo as int, hi as int),
        lo <= r <= hi,
{
    let mut e: usize = hi;
    while lo < e && is_whitespace(v[e - 1])
        invariant
            lo <= e <= hi,
            hi <= v.len(),
            back_space(v@, lo as int, e as int) == back_space(v@, lo as int, hi as int),
        decreases e - lo,
    {
        e = e - 1;
    }
    e
}

/// The first position in `from..hi` that holds white space, or `hi`.
pub fn find_word_end(v: &Vec<char>, from: usize, hi: usize) -> (r: usize)
    requires
        from <= hi <= v.len(),
    ensures
        r == word_end(v@, from as int, hi as int),
        from <= r <= hi,
{
    let mut i: usize = from;
    while i < hi && !is_whitespace(v[i])
        invariant
            from <= i <= hi,
            hi <= v.len(),
            word_end(v@, i as int, hi as int) == word_end(v@, from as int, hi as int),
        decreases hi - i,
    {
        i = i + 1;
    }
    i
}

/// Whether `s` is empty or all white space.
pub fn is_blank(s: &str) -> (r: bool)
    ensures
        r == blank(s@),
{
    let v = chars_of(s);
    let a = skip_spaces(&v, 0);
    proof {
        lemma_blank_trimmed(s@);
    }
    a == v.len()
}

/// The part `from..to` of `s`, counted in characters, as a new string.
pub fn slice_string(s: &str, from: usize, to: usize) -> (r: String)
    requires
        from <= to <= s@.len(),
    ensures
        r@ == s@.subrange(from as int, to as int),
{
    String::from_str(s.substring_char(from, to))
}

/// `s` without the white space at its two ends.
pub fn trim(s: &str) -> (r: String)
    ensures
        r@ == trimmed(s@),
{
    let v = chars_of(s);
    let a = skip_spaces(&v, 0);
    let b = back_spaces(&v, a, v.len());
    slice_string(s, a, b)
}

/// The ASCII lower-case form of `v[from..to]`.
pub fn lower_range(v: &Vec<char>, from: usize, to: usize) -> (out: Vec<char>)
    requires
        from <= to <= v.len(),
    ensures
        out@ == lower_ascii(v@.subrange(from as int, to as int)),
{
    let mut out: Vec<char> = Vec::new();
    let mut i: usize = from;
    while i < to
        invariant
            from <= i <= to,
            to <= v.len(),
            out@ == lower_ascii(v@.subrange(from as int, i as int)),
        decreases to - i,
    {
        out.push(ascii_lower(v[i]));
        i = i + 1;
        assert(out@ =~= lower_ascii(v@.subrange(from as int, i as int)));
    }
    out
}

/// Whether `v` holds exactly the characters of `word`.
pub fn is_word(v: &Vec<char>, word: &str) -> (r: bool)
    ensures
        r == (v@ == word@),
{
    let w = chars_of(word);
    if v.len() != w.len() {
        return false;
    }
    let mut i: usize = 0;
    while i < v.len()
        invariant
            i <= v.len(),
            v.len() == w.len(),
            w@ == word@,
            same_prefix(v@, w@, i as int),
        decreases v.len() - i,
    {
        if v[i] != w[i] {
            return false;
        }
        i = i + 1;
    }
    assert(v@ =~= w@);
    true
}

/// Whether `a` and `b` are equal once both are put in ASCII lower case.
pub fn eq_ignore_ascii_case(a: &str, b: &str) -> (r: bool)
    ensures
        r == (lower_ascii(a@) == lower_ascii(b@)),
{
    let x = chars_of(a);
    let y = chars_of(b);
    let lx = lower_range(&x, 0, x.len());
    let ly = lower_range(&y, 0, y.len());
    assert(x@.subrange(0, x@.len() as int) =~= x@);
    assert(y@.subrange(0, y@.len() as int) =~= y@);
    if lx.len() != ly.len() {
        return false;
    }
    let mut i: usize = 0;
    while i < lx.len()
        invariant
            i <= lx.len(),
            lx.len() == ly.len(),
            lx@ == lower_ascii(a@),
            ly@ == lower_ascii(b@),
            same_prefix(lx@, ly@, i as int),
        decreases lx.len() - i,
    {
        if lx[i] != ly[i] {
            return false;
        }
        i = i + 1;
    }
    assert(lx@ =~= ly@);
    true
}

/// The character sequences of a list of strings.
pub open spec fn texts(v: Seq<String>) -> Seq<Seq<char>> {
    Seq::new(v.len(), |i: int| v[i]@)
}

/// `a` followed by `b`.
pub fn concat2(a: &str, b: &str) -> (r: String)
    ensures
        r@ == a@ + b@,
{
    String::from_str(a).concat(b)
}

/// `a` followed by `b` and `c`.
pub fn concat3(a: &str, b: &str, c: &str) -> (r: String)
    ensures
        r@ == a@ + b@ + c@,
{
    String::from_str(a).concat(b).concat(c)
}

/// The parts in order, with `sep` between each two.
pub open spec fn joined(parts: Seq<Seq<char>>, sep: Seq<char>) -> Seq<char>
    decreases parts.len(),
{
    if parts.len() == 0 {
        Seq::empty()
    } else if parts.len() == 1 {
        parts[0]
    } else {
        joined(parts.drop_last(), sep) + sep + parts.last()
    }
}

/// The strings of `parts` in order, with `sep` between each two.
pub fn join(parts: &Vec<String>, sep: &str) -> (r: String)
    ensures
        r@ == joined(texts(parts@), sep@),
{
    let mut out = String::new();
    let mut i: usize = 0;
    while i < parts.len()
        invariant
            i <= parts.len(),
            out@ == joined(texts(parts@).subrange(0, i as int), sep@),
        decreases parts.len() - i,
    {
        if i > 0 {
            out.append(sep);
        }
        out.append(parts[i].as_str());
        proof {
            let all = texts(parts@);
            let now = all.subrange(0, i + 1);
            assert(now.drop_last() =~= all.subrange(0, i as int));
            assert(now.last() == parts@[i as int]@);
            if i == 0 {
                assert(out@ =~= now[0]);
            }
        }
        i = i + 1;
    }
    assert(texts(parts@).subrange(0, parts@.len() as int) =~= texts(parts@));
    out
}

/// The character of the decimal digit `d`.
pub open spec fn digit_char(d: int) -> char {
    ((48 + d) as u8) as char
}

/// The decimal digits of `n`, most significant first.
pub open spec fn decimal_nat(n: nat) -> Seq<char>
    decreases n,
{
    if n < 10 {
        seq![digit_char(n as int)]
    } else {
        decimal_nat(n / 10).push(digit_char((n % 10) as int))
    }
}

/// `n` in decimal, with a minus sign before a negative number.
pub open spec fn decimal(n: int) -> Seq<char> {
    if n < 0 {
        seq!['-'] + decimal_nat((-n) as nat)
    } else {
        decimal_nat(n as nat)
    }
}

fn digit_str(d: u64) -> (r: &'static str)
    requires
        d < 10,
    ensures
        r@ == seq![digit_char(d as int)],
{
    proof {
        reveal_strlit("0");
        reveal_strlit("1");
        reveal_strlit("2");
        reveal_strlit("3");
        reveal_strlit("4");
        reveal_strlit("5");
        reveal_strlit("6");
        reveal_strlit("7");
        reveal_strlit("8");
        reveal_strlit("9");
    }
    let r = if d == 0 {
        "0"
    } else if d == 1 {
        "1"
    } else if d == 2 {
        "2"
    } else if d == 3 {
        "3"
    } else if d == 4 {
        "4"
    } else if d == 5 {
        "5"
    } else if d == 6 {
        "6"
    } else if d == 7 {
        "7"
    } else if d == 8 {
        "8"
    } else {
        "9"
    };
    assert(r@ =~= seq![digit_char(d as int)]);
    r
}

/// `n` in decimal.
pub fn render_nat(n: u64) -> (r: String)
    ensures
        r@ == decimal_nat(n as nat),
    decreases n,
{
    if n < 10 {
        String::from_str(digit_str(n))
    } else {
        let mut s = render_nat(n / 10);
        s.append(digit_str(n % 10));
        assert(s@ =~= decimal_nat((n / 10) as nat).push(digit_char((n % 10) as int)));
        s
    }
}

/// `n` in decimal, with a minus sign before a negative number.
pub fn render_int(n: i64) -> (r: String)
    ensures
        r@ == decimal(n as int),
{
    if n < 0 {
        let m: u64 = if n == i64::MIN {
            0x8000_0000_0000_0000
        } else {
            (-n) as u64
        };
        proof {
            reveal_strlit("-");
            assert("-"@ =~= seq!['-']);
        }
        concat2("-", render_nat(m).as_str())
    } else {
        render_nat(n as u64)
    }
}

/// `String::push`: the character is added at the end of the string.
#[verifier::external_body]
pub(crate) fn push_char(s: &mut String, c: char)
    ensures
        final(s)@ == old(s)@.push(c),
{
    s.push(c)
}

/// The lower-case form of `s` by the rules of Unicode, as
/// `str::to_lowercase` gives it.
pub uninterp spec fn unicode_lower(s: Seq<char>) -> Seq<char>;

/// `str::to_lowercase`: each character replaced by its lower-case form in
/// Unicode, which may be more than one character. The result is a function
/// of the text alone.
#[verifier::external_body]
pub(crate) fn to_lowercase(s: &str) -> (r: String)
    ensures
        r@ == unicode_lower(s@),
{
    s.to_lowercase()
}

/// Whether `needle` stands in `hay` at position `i`.
pub open spec fn occurs_at(hay: Seq<char>, needle: Seq<char>, i: int) -> bool {
    0 <= i && i + needle.len() <= hay.len() && hay.subrange(i, i + needle.len()) == needle
}

/// Whether `needle` stands somewhere in `hay`.
pub open spec fn occurs(hay: Seq<char>, needle: Seq<char>) -> bool {
    exists|i: int| occurs_at(hay, needle, i)
}

/// Whether the characters `n` stand somewhere in the characters `h`.
pub fn occurs_in(h: &Vec<char>, n: &Vec<char>) -> (r: bool)
    ensures
        r == occurs(h@, n@),
{
    if n.len() > h.len() {
        assert(!occurs(h@, n@)) by {
            if occurs(h@, n@) {
                let i = choose|i: int| occurs_at(h@, n@, i);
                assert(occurs_at(h@, n@, i));
            }
        }
        return false;
    }
    let last = h.len() - n.len();
    let mut i: usize = 0;
    while i <= last
        invariant
            n.len() <= h.len(),
            last == h.len() - n.len(),
            i <= last + 1,
            forall|k: int| 0 <= k < i ==> !occurs_at(h@, n@, k),
        decreases last + 1 - i,
    {
        let mut j: usize = 0;
        while j < n.len() && h[i + j] == n[j]
            invariant
                i <= last,
                last == h.len() - n.len(),
                j <= n.len(),
                forall|k: int| 0 <= k < j ==> h@[i + k] == n@[k],
            decreases n.len() - j,
        {
            j = j + 1;
        }
        if j == n.len() {
            assert(h@.subrange(i as int, i + n@.len()) =~= n@);
            assert(occurs_at(h@, n@, i as int));
            return true;
        }
        assert(!occurs_at(h@, n@, i as int)) by {
            if occurs_at(h@, n@, i as int) {
                assert(h@.subrange(i as int, i + n@.len())[j as int] == n@[j as int]);
            }
        }
        i = i + 1;
    }
    assert(!occurs(h@, n@)) by {
        if occurs(h@, n@) {
            let k = choose|k: int| occurs_at(h@, n@, k);
            assert(occurs_at(h@, n@, k));
        }
    }
    false
}

/// Whether `needle` stands somewhere in `hay`.
pub fn contains(hay: &str, needle: &str) -> (r: bool)
    ensures
        r == occurs(hay@, needle@),
{
    let h = chars_of(hay);
    let n = chars_of(needle);
    occurs_in(&h, &n)
}

/// Whether `needle` stands somewhere in `hay` once both are put in ASCII
/// lower case.
pub fn contains_ignore_ascii_case(hay: &str, needle: &str) -> (r: bool)
    ensures
        r == occurs(lower_ascii(hay@), lower_ascii(needle@)),
{
    let h = chars_of(hay);
    let n = chars_of(needle);
    let lh = lower_range(&h, 0, h.len());
    let ln = lower_range(&n, 0, n.len());
    assert(h@.subrange(0, h@.len() as int) =~= h@);
    assert(n@.subrange(0, n@.len() as int) =~= n@);
    occurs_in(&lh, &ln)
}

/// `cur` as a word, unless it is empty.
pub open spec fn word_if_any(cur: Seq<char>) -> Seq<Seq<char>> {
    if cur.len() > 0 {
        seq![cur]
    } else {
        Seq::empty()
    }
}

/// The words of `s` from position `i` on, where `cur` holds the characters
/// of the word that has begun.
pub open spec fn words_from(s: Seq<char>, i: int, cur: Seq<char>) -> Seq<Seq<char>>
    decreases s.len() - i,
{
    if i < 0 || i >= s.len() {
        word_if_any(cur)
    } else if is_space(s[i]) {
        word_if_any(cur) + words_from(s, i + 1, Seq::empty())
    } else {
        words_from(s, i + 1, cur.push(s[i]))
    }
}

/// The words of `s`: the longest stretches without white space, in order.
pub open spec fn words(s: Seq<char>) -> Seq<Seq<char>> {
    words_from(s, 0, Seq::empty())
}

/// The words of `s`: the longest stretches without white space, in order.
pub fn split_words(s: &str) -> (out: Vec<String>)
    ensures
        texts(out@) == words(s@),
{
    let v = chars_of(s);
    let mut out: Vec<String> = Vec::new();
    let mut start: usize = 0;
    let mut i: usize = 0;
    assert(texts(out@) =~= Seq::<Seq<char>>::empty());
    assert(s@.subrange(0, 0) =~= Seq::<char>::empty());
    while i < v.len()
        invariant
            v@ == s@,
            start <= i <= v.len(),
            words(s@) == texts(out@) + words_from(s@, i as int, s@.subrange(start as int, i as int)),
        decreases v.len() - i,
    {
        let ghost cur = s@.subrange(start as int, i as int);
        if is_whitespace(v[i]) {
            let ghost was = texts(out@);
            if start < i {
                out.push(slice_string(s, start, i));
                assert(texts(out@) =~= was + word_if_any(cur));
            } else {
                assert(texts(out@) =~= was + word_if_any(cur));
            }
            start = i + 1;
            assert(s@.subrange(start as int, start as int) =~= Seq::<char>::empty());
            assert(was + (word_if_any(cur) + words_from(s@, i + 1, Seq::empty())) =~= (was
                + word_if_any(cur)) + words_from(s@, i + 1, Seq::empty()));
        } else {
            assert(s@.subrange(start as int, i + 1) =~= cur.push(s@[i as int]));
        }
        i = i + 1;
    }
    let ghost was = texts(out@);
    if start < i {
        out.push(slice_string(s, start, i));
    }
    assert(texts(out@) =~= was + word_if_any(s@.subrange(start as int, i as int)));
    out
}

/// `n` times the character `c`.
pub open spec fn repeated(c: char, n: nat) -> Seq<char> {
    Seq::new(n, |i: int| c)
}

/// `n` times the one character of `unit`.
pub fn repeat(unit: &str, n: usize) -> (r: String)
    requires
        unit@.len() == 1,
    ensures
        r@ == repeated(unit@[0], n as nat),
{
    let mut out = String::new();
    let mut i: usize = 0;
    assert(out@ =~= repeated(unit@[0], 0));
    while i < n
        invariant
            i <= n,
            unit@.len() == 1,
            out@ == repeated(unit@[0], i as nat),
        decreases n - i,
    {
        out.append(unit);
        i = i + 1;
        assert(out@ =~= repeated(unit@[0], i as nat));
    }
    out
}

/// `s` in the middle of a line of `width` characters, with blanks on both
/// sides and the odd blank on the right; `s` itself if it is as long or
/// longer.
pub open spec fn centered(s: Seq<char>, width: nat) -> Seq<char> {
    if s.len() >= width {
        s
    } else {
        let left = ((width - s.len()) / 2) as nat;
        repeated(' ', left) + s + repeated(' ', (width - s.len() - left) as nat)
    }
}

/// `s` in the middle of a line of `width` characters.
pub fn center(s: &str, width: usize) -> (r: String)
    ensures
        r@ == centered(s@, width as nat),
{
    let n = s.unicode_len();
    if n >= width {
        return String::from_str(s);
    }
    proof {
        reveal_strlit(" ");
    }
    let left = (width - n) / 2;
    let mut out = repeat(" ", left);
    out.append(s);
    out.append(repeat(" ", width - n - left).as_str());
    out
}

} // verus!
