//! Character-level helpers over `str` / `String`, with their specifications.
use vstd::prelude::*;
use vstd::std_specs::iter::IteratorSpec;
use vstd::string::StringExecFns;

verus! {

/// Appends one character to a string (`String::push`).
#[verifier::external_body]
pub(crate) fn push_char(s: &mut String, c: char)
    ensures
        final(s)@ == old(s)@.push(c),
{
    s.push(c);
}

/// The characters of a string slice, in order.
pub fn chars_of(s: &str) -> (r: Vec<char>)
    ensures
        r@ == s@,
{
    let mut out: Vec<char> = Vec::new();
    for c in it: s.chars()
        invariant
            out@ == it.seq().take(it.index() as int),
    {
        out.push(c);
    }
    out
}

/// A string holding exactly the given characters.
pub fn string_of(v: &Vec<char>) -> (r: String)
    ensures
        r@ == v@,
{
    let mut s = String::new();
    let mut i: usize = 0;
    while i < v.len()
        invariant
            i <= v@.len(),
            s@ == v@.take(i as int),
        decreases v@.len() - i,
    {
        push_char(&mut s, v[i]);
        assert(v@.take(i + 1) == v@.take(i as int).push(v@[i as int]));
        i = i + 1;
    }
    assert(v@.take(v@.len() as int) == v@);
    s
}

/// A string holding the characters of a literal.
pub fn string_lit(lit: &str) -> (r: String)
    ensures
        r@ == lit@,
{
    String::from_str(lit)
}

/// Appends the characters of `lit` to `s`.
pub fn push_lit(s: &mut String, lit: &str)
    ensures
        final(s)@ == old(s)@ + lit@,
{
    s.append(lit);
}

/// Appends the characters of `v` to `s`.
pub fn push_chars(s: &mut String, v: &Vec<char>)
    ensures
        final(s)@ == old(s)@ + v@,
{
    let ghost start = s@;
    let mut i: usize = 0;
    while i < v.len()
        invariant
            i <= v@.len(),
            s@ == start + v@.take(i as int),
        decreases v@.len() - i,
    {
        push_char(s, v[i]);
        assert(v@.take(i + 1) == v@.take(i as int).push(v@[i as int]));
        i = i + 1;
    }
    assert(v@.take(v@.len() as int) == v@);
}

/// Whether `c` has the Unicode `White_Space` property (`char::is_whitespace`).
pub open spec fn is_ws(c: char) -> bool {
    let u = c as u32;
    ||| 0x09 <= u <= 0x0D
    ||| u == 0x20
    ||| u == 0x85
    ||| u == 0xA0
    ||| u == 0x1680
    ||| 0x2000 <= u <= 0x200A
    ||| u == 0x2028
    ||| u == 0x2029
    ||| u == 0x202F
    ||| u == 0x205F
    ||| u == 0x3000
}

pub fn is_whitespace(c: char) -> (b: bool)
    ensures
        b == is_ws(c),
{
    let u = c as u32;
    (0x09 <= u && u <= 0x0D) || u == 0x20 || u == 0x85 || u == 0xA0 || u == 0x1680 || (0x2000
        <= u && u <= 0x200A) || u == 0x2028 || u == 0x2029 || u == 0x202F || u == 0x205F || u
        == 0x3000
}

/// `s` without its leading whitespace.
pub open spec fn trim_start(s: Seq<char>) -> Seq<char>
    decreases s.len(),
{
    if s.len() > 0 && is_ws(s[0]) {
        trim_start(s.drop_first())
    } else {
        s
    }
}

/// `s` without its trailing whitespace.
pub open spec fn trim_end(s: Seq<char>) -> Seq<char>
    decreases s.len(),
{
    if s.len() > 0 && is_ws(s.last()) {
        trim_end(s.drop_last())
    } else {
        s
    }
}

/// `s` without leading and trailing whitespace (`str::trim`).
pub open spec fn trim(s: Seq<char>) -> Seq<char> {
    trim_end(trim_start(s))
}

/// The characters of `v` from `a` up to `b`.
pub fn sub_chars(v: &Vec<char>, a: usize, b: usize) -> (r: Vec<char>)
    requires
        a <= b <= v@.len(),
    ensures
        r@ == v@.subrange(a as int, b as int),
{
    let mut out: Vec<char> = Vec::new();
    let mut i = a;
    while i < b
        invariant
            a <= i <= b <= v@.len(),
            out@ == v@.subrange(a as int, i as int),
        decreases b - i,
    {
        out.push(v[i]);
        assert(v@.subrange(a as int, i + 1) == v@.subrange(a as int, i as int).push(v@[i as int]));
        i = i + 1;
    }
    out
}

pub fn trim_start_chars(v: &Vec<char>) -> (r: Vec<char>)
    ensures
        r@ == trim_start(v@),
{
    let n = v.len();
    let mut i: usize = 0;
    assert(v@.subrange(0, n as int) == v@);
    while i < n && is_whitespace(v[i])
        invariant
            i <= n == v@.len(),
            trim_start(v@) == trim_start(v@.subrange(i as int, n as int)),
        decreases n - i,
    {
        assert(v@.subrange(i as int, n as int).drop_first() == v@.subrange(i + 1, n as int));
        i = i + 1;
    }
    sub_chars(v, i, n)
}

pub fn trim_end_chars(v: &Vec<char>) -> (r: Vec<char>)
    ensures
        r@ == trim_end(v@),
{
    let mut j: usize = v.len();
    assert(v@.subrange(0, j as int) == v@);
    while j > 0 && is_whitespace(v[j - 1])
        invariant
            j <= v@.len(),
            trim_end(v@) == trim_end(v@.subrange(0, j as int)),
        decreases j,
    {
        assert(v@.subrange(0, j as int).drop_last() == v@.subrange(0, j - 1));
        j = j - 1;
    }
    sub_chars(v, 0, j)
}

pub fn trim_chars(v: &Vec<char>) -> (r: Vec<char>)
    ensures
        r@ == trim(v@),
{
    let t = trim_start_chars(v);
    trim_end_chars(&t)
}

/// Whether `c` is an ASCII letter or digit.
pub open spec fn is_ascii_alnum(c: char) -> bool {
    ('0' <= c <= '9') || ('a' <= c <= 'z') || ('A' <= c <= 'Z')
}

pub open spec fn ascii_upper(c: char) -> char {
    if 'a' <= c <= 'z' {
        ((c as u32) - 32) as char
    } else {
        c
    }
}

pub open spec fn ascii_lower(c: char) -> char {
    if 'A' <= c <= 'Z' {
        ((c as u32) + 32) as char
    } else {
        c
    }
}

/// `char::to_ascii_uppercase`.
pub fn to_ascii_upper(c: char) -> (r: char)
    ensures
        r == ascii_upper(c),
{
    if 'a' <= c && c <= 'z' {
        ((c as u8) - 32) as char
    } else {
        c
    }
}

/// `char::to_ascii_lowercase`.
pub fn to_ascii_lower(c: char) -> (r: char)
    ensures
        r == ascii_lower(c),
{
    if 'A' <= c && c <= 'Z' {
        ((c as u8) + 32) as char
    } else {
        c
    }
}

pub open spec fn upper_seq(s: Seq<char>) -> Seq<char> {
    s.map_values(|c: char| ascii_upper(c))
}

pub open spec fn lower_seq(s: Seq<char>) -> Seq<char> {
    s.map_values(|c: char| ascii_lower(c))
}

/// `str::to_ascii_uppercase` on a character vector.
pub fn upper_chars(v: &Vec<char>) -> (r: Vec<char>)
    ensures
        r@ == upper_seq(v@),
{
    let mut out: Vec<char> = Vec::new();
    let mut i: usize = 0;
    while i < v.len()
        invariant
            i <= v@.len(),
            out@ == upper_seq(v@.take(i as int)),
        decreases v@.len() - i,
    {
        out.push(to_ascii_upper(v[i]));
        assert(upper_seq(v@.take(i + 1)) == upper_seq(v@.take(i as int)).push(ascii_upper(v@[i as int])));
        i = i + 1;
    }
    assert(v@.take(v@.len() as int) == v@);
    out
}

/// `str::to_ascii_lowercase` on a character vector.
pub fn lower_chars(v: &Vec<char>) -> (r: Vec<char>)
    ensures
        r@ == lower_seq(v@),
{
    let mut out: Vec<char> = Vec::new();
    let mut i: usize = 0;
    while i < v.len()
        invariant
            i <= v@.len(),
            out@ == lower_seq(v@.take(i as int)),
        decreases v@.len() - i,
    {
        out.push(to_ascii_lower(v[i]));
        assert(lower_seq(v@.take(i + 1)) == lower_seq(v@.take(i as int)).push(ascii_lower(v@[i as int])));
        i = i + 1;
    }
    assert(v@.take(v@.len() as int) == v@);
    out
}

/// Whether the characters of `v` are those of `lit`.
pub fn eq_lit(v: &Vec<char>, lit: &str) -> (b: bool)
    ensures
        b == (v@ == lit@),
{
    let n = lit.unicode_len();
    if v.len() != n {
        return false;
    }
    let mut i: usize = 0;
    while i < n
        invariant
            i <= n == v@.len() == lit@.len(),
            v@.take(i as int) == lit@.take(i as int),
        decreases n - i,
    {
        if v[i] != lit.get_char(i) {
            assert(v@[i as int] != lit@[i as int]);
            return false;
        }
        assert(v@.take(i + 1) == v@.take(i as int).push(v@[i as int]));
        assert(lit@.take(i + 1) == lit@.take(i as int).push(lit@[i as int]));
        i = i + 1;
    }
    assert(v@.take(n as int) == v@);
    assert(lit@.take(n as int) == lit@);
    true
}

pub open spec fn starts_with(s: Seq<char>, p: Seq<char>) -> bool {
    p.len() <= s.len() && s.subrange(0, p.len() as int) == p
}

/// Whether `v` begins with the characters of `lit`.
pub fn starts_with_lit(v: &Vec<char>, lit: &str) -> (b: bool)
    ensures
        b == starts_with(v@, lit@),
{
    let n = lit.unicode_len();
    if v.len() < n {
        return false;
    }
    let head = sub_chars(v, 0, n);
    eq_lit(&head, lit)
}

/// The pieces of `s` between occurrences of `sep` (`str::split`).
pub open spec fn split_on(s: Seq<char>, sep: char) -> Seq<Seq<char>>
    decreases s.len(),
{
    if s.len() == 0 {
        seq![Seq::empty()]
    } else {
        let p = split_on(s.drop_last(), sep);
        if s.last() == sep {
            p.push(Seq::empty())
        } else {
            p.update(p.len() - 1, p.last().push(s.last()))
        }
    }
}

pub(crate) proof fn lemma_split_on_nonempty(s: Seq<char>, sep: char)
    ensures
        split_on(s, sep).len() >= 1,
    decreases s.len(),
{
    if s.len() > 0 {
        lemma_split_on_nonempty(s.drop_last(), sep);
    }
}

/// Splitting at a separator that stands between `a` and `b` splits each side.
pub(crate) proof fn lemma_split_concat(a: Seq<char>, b: Seq<char>, sep: char)
    ensures
        split_on(a + seq![sep] + b, sep) == split_on(a, sep) + split_on(b, sep),
    decreases b.len(),
{
    let s = a + seq![sep] + b;
    if b.len() == 0 {
        assert(s.drop_last() == a);
        assert(split_on(b, sep) == seq![Seq::<char>::empty()]);
    } else {
        assert(s.drop_last() == a + seq![sep] + b.drop_last());
        assert(s.last() == b.last());
        lemma_split_concat(a, b.drop_last(), sep);
        lemma_split_on_nonempty(b.drop_last(), sep);
        let pa = split_on(a, sep);
        let pb = split_on(b.drop_last(), sep);
        if b.last() == sep {
            assert((pa + pb).push(Seq::<char>::empty()) == pa + pb.push(Seq::<char>::empty()));
        } else {
            let p = pa + pb;
            assert(p.last() == pb.last());
            assert(p.update(p.len() - 1, p.last().push(b.last()))
                == pa + pb.update(pb.len() - 1, pb.last().push(b.last())));
        }
    }
}

/// No piece of a split holds the separator.
pub(crate) proof fn lemma_split_pieces(s: Seq<char>, sep: char)
    ensures
        forall|i: int, j: int| 0 <= i < split_on(s, sep).len() && 0 <= j < split_on(s, sep)[i].len()
            ==> #[trigger] split_on(s, sep)[i][j] != sep,
    decreases s.len(),
{
    if s.len() > 0 {
        lemma_split_pieces(s.drop_last(), sep);
        lemma_split_on_nonempty(s.drop_last(), sep);
        let p = split_on(s.drop_last(), sep);
        let r = split_on(s, sep);
        assert forall|i: int, j: int| 0 <= i < r.len() && 0 <= j < r[i].len() implies #[trigger] r[i][j] != sep by {
            if s.last() == sep {
                if i < p.len() {
                    assert(r[i] == p[i]);
                }
            } else if i < p.len() - 1 {
                assert(r[i] == p[i]);
            } else {
                assert(r[i] == p.last().push(s.last()));
                if j < p.last().len() {
                    assert(r[i][j] == p[p.len() - 1][j]);
                }
            }
        }
    }
}

/// A text without the separator is one piece.
pub(crate) proof fn lemma_split_none(s: Seq<char>, sep: char)
    requires
        forall|i: int| 0 <= i < s.len() ==> s[i] != sep,
    ensures
        split_on(s, sep) == seq![s],
    decreases s.len(),
{
    if s.len() > 0 {
        lemma_split_none(s.drop_last(), sep);
        assert(s[s.len() - 1] != sep);
        assert(seq![s.drop_last()].last() == s.drop_last());
        assert(s.drop_last().push(s.last()) =~= s);
        assert(seq![s.drop_last()].update(0, s) =~= seq![s]);
    } else {
        assert(s =~= Seq::<char>::empty());
    }
}

proof fn lemma_trim_start_push(y: Seq<char>, c: char)
    ensures
        trim_start(y.push(c)) == (if trim_start(y).len() == 0 {
            trim_start(seq![c])
        } else {
            trim_start(y).push(c)
        }),
    decreases y.len(),
{
    if y.len() == 0 {
        assert(y.push(c) == seq![c]);
    } else if is_ws(y[0]) {
        assert(y.push(c).drop_first() == y.drop_first().push(c));
        lemma_trim_start_push(y.drop_first(), c);
    }
}

/// Whitespace appended to a text does not change its trimmed form.
pub(crate) proof fn lemma_trim_push_ws(y: Seq<char>, c: char)
    requires
        is_ws(c),
    ensures
        trim(y.push(c)) == trim(y),
{
    lemma_trim_start_push(y, c);
    let e = Seq::<char>::empty();
    assert(seq![c].drop_first() == e);
    assert(trim_start(e) == e);
    assert(trim_end(e) == e);
    if trim_start(y).len() > 0 {
        let t = trim_start(y);
        assert(t.push(c).drop_last() == t);
        assert(t.push(c).last() == c);
    } else {
        assert(trim_start(seq![c]) == e);
    }
}

/// Whitespace put in front of a text does not change its trimmed form.
pub(crate) proof fn lemma_trim_prepend_ws(y: Seq<char>, c: char)
    requires
        is_ws(c),
    ensures
        trim(seq![c] + y) == trim(y),
{
    assert((seq![c] + y).drop_first() == y);
}

/// A text that neither starts nor ends with whitespace is its own trimmed form.
pub(crate) proof fn lemma_trim_plain(w: Seq<char>)
    requires
        w.len() > 0,
        !is_ws(w[0]),
        !is_ws(w.last()),
    ensures
        trim(w) == w,
{
}

/// Splitting a ` + `-joined list at `+` gives back, up to surrounding
/// whitespace, the joined parts.
pub(crate) proof fn lemma_split_join_plus(ps: Seq<Seq<char>>)
    requires
        ps.len() >= 1,
        forall|k: int, i: int| 0 <= k < ps.len() && 0 <= i < ps[k].len() ==> #[trigger] ps[k][i] != '+',
    ensures
        split_on(join(ps, " + "@), '+').len() == ps.len(),
        forall|k: int| 0 <= k < ps.len() ==> trim(#[trigger] split_on(join(ps, " + "@), '+')[k]) == trim(ps[k]),
    decreases ps.len(),
{
    reveal_strlit(" + ");
    if ps.len() == 1 {
        let p0 = ps[0];
        assert forall|i: int| 0 <= i < p0.len() implies p0[i] != '+' by {
            assert(ps[0][i] != '+');
        }
        lemma_split_none(p0, '+');
    } else {
        let init = ps.drop_last();
        let last = ps.last();
        assert forall|k: int, i: int| 0 <= k < init.len() && 0 <= i < init[k].len() implies #[trigger] init[k][i] != '+' by {
            assert(ps[k][i] != '+');
        }
        lemma_split_join_plus(init);
        let j = join(init, " + "@);
        let a = j.push(' ');
        let b = seq![' '] + last;
        assert(join(ps, " + "@) == a + seq!['+'] + b);
        lemma_split_concat(a, b, '+');
        let pj = split_on(j, '+');
        lemma_split_on_nonempty(j, '+');
        assert(split_on(a, '+') == pj.update(pj.len() - 1, pj.last().push(' '))) by {
            assert(a.drop_last() == j);
        }
        assert forall|i: int| 0 <= i < b.len() implies b[i] != '+' by {
            if i > 0 {
                assert(b[i] == ps[ps.len() - 1][i - 1]);
            }
        }
        lemma_split_none(b, '+');
        lemma_trim_push_ws(pj.last(), ' ');
        lemma_trim_prepend_ws(last, ' ');
        let whole = split_on(join(ps, " + "@), '+');
        assert forall|k: int| 0 <= k < ps.len() implies trim(#[trigger] whole[k]) == trim(ps[k]) by {
            if k < ps.len() - 1 {
                assert(trim(split_on(j, '+')[k]) == trim(init[k]));
            }
        }
    }
}

/// The first character of a joined list is that of its first part, and the
/// last is that of its last part.
pub(crate) proof fn lemma_join_ends(ps: Seq<Seq<char>>, sep: Seq<char>)
    requires
        ps.len() >= 1,
        forall|k: int| 0 <= k < ps.len() ==> (#[trigger] ps[k]).len() > 0,
    ensures
        join(ps, sep).len() > 0,
        join(ps, sep)[0] == ps[0][0],
        join(ps, sep).last() == ps.last().last(),
    decreases ps.len(),
{
    if ps.len() > 1 {
        lemma_join_ends(ps.drop_last(), sep);
        assert(ps.last().len() > 0);
    }
}

proof fn lemma_trim_start_upper(s: Seq<char>)
    ensures
        trim_start(upper_seq(s)) == upper_seq(trim_start(s)),
    decreases s.len(),
{
    if s.len() > 0 {
        assert(upper_seq(s)[0] == ascii_upper(s[0]));
        assert(upper_seq(s).drop_first() == upper_seq(s.drop_first()));
        if is_ws(s[0]) {
            lemma_trim_start_upper(s.drop_first());
        }
    }
}

proof fn lemma_trim_end_upper(s: Seq<char>)
    ensures
        trim_end(upper_seq(s)) == upper_seq(trim_end(s)),
    decreases s.len(),
{
    if s.len() > 0 {
        assert(upper_seq(s).last() == ascii_upper(s.last()));
        assert(upper_seq(s).drop_last() == upper_seq(s.drop_last()));
        if is_ws(s.last()) {
            lemma_trim_end_upper(s.drop_last());
        }
    }
}

proof fn lemma_trim_ascii(s: Seq<char>)
    requires
        is_ascii_seq(s),
    ensures
        is_ascii_seq(trim_start(s)),
        is_ascii_seq(trim_end(s)),
    decreases s.len(),
{
    if s.len() > 0 {
        assert forall|i: int| 0 <= i < s.drop_first().len() implies (#[trigger] s.drop_first()[i] as u32) < 0x80 by {
            assert(s.drop_first()[i] == s[i + 1]);
        }
        assert forall|i: int| 0 <= i < s.drop_last().len() implies (#[trigger] s.drop_last()[i] as u32) < 0x80 by {
            assert(s.drop_last()[i] == s[i]);
        }
        lemma_trim_ascii(s.drop_first());
        lemma_trim_ascii(s.drop_last());
    }
}

/// Trimming and ASCII upper-casing commute, trimming keeps ASCII text ASCII,
/// and upper-casing keeps it ASCII, does nothing a second time and changes
/// nothing that lower-casing sees.
pub(crate) proof fn lemma_trim_upper(s: Seq<char>)
    ensures
        trim(upper_seq(s)) == upper_seq(trim(s)),
        is_ascii_seq(s) ==> is_ascii_seq(trim(s)) && is_ascii_seq(upper_seq(trim(s))),
        upper_seq(upper_seq(trim(s))) == upper_seq(trim(s)),
        lower_seq(upper_seq(trim(s))) == lower_seq(trim(s)),
{
    lemma_trim_start_upper(s);
    lemma_trim_end_upper(trim_start(s));
    let t = trim(s);
    if is_ascii_seq(s) {
        lemma_trim_ascii(s);
        lemma_trim_ascii(trim_start(s));
        assert forall|i: int| 0 <= i < upper_seq(t).len() implies (#[trigger] upper_seq(t)[i] as u32) < 0x80 by {
            assert(upper_seq(t)[i] == ascii_upper(t[i]));
            assert((t[i] as u32) < 0x80);
        }
    }
    assert(upper_seq(upper_seq(t)) =~= upper_seq(t));
    assert(lower_seq(upper_seq(t)) =~= lower_seq(t));
}

/// Whether `s` is ASCII text without lower-case letters.
pub open spec fn is_upper_ascii(s: Seq<char>) -> bool {
    forall|i: int| 0 <= i < s.len() ==> (#[trigger] s[i] as u32) < 0x80 && !('a' <= s[i] <= 'z')
}

/// Joining upper-case ASCII parts with an upper-case ASCII separator gives
/// upper-case ASCII text.
pub(crate) proof fn lemma_join_upper_ascii(ps: Seq<Seq<char>>, sep: Seq<char>)
    requires
        is_upper_ascii(sep),
        forall|k: int| 0 <= k < ps.len() ==> is_upper_ascii(#[trigger] ps[k]),
    ensures
        is_upper_ascii(join(ps, sep)),
    decreases ps.len(),
{
    if ps.len() > 1 {
        lemma_join_upper_ascii(ps.drop_last(), sep);
        let j = join(ps.drop_last(), sep);
        let l = ps.last();
        assert(is_upper_ascii(l));
        assert forall|i: int| 0 <= i < (j + sep + l).len() implies
            (#[trigger] (j + sep + l)[i] as u32) < 0x80 && !('a' <= (j + sep + l)[i] <= 'z') by {
            if i < j.len() {
                assert((j + sep + l)[i] == j[i]);
            } else if i < j.len() + sep.len() {
                assert((j + sep + l)[i] == sep[i - j.len()]);
            } else {
                assert((j + sep + l)[i] == l[i - j.len() - sep.len()]);
            }
        }
    } else if ps.len() == 1 {
        assert(is_upper_ascii(ps[0]));
    }
}

/// Upper-casing upper-case ASCII text keeps it as it is.
pub(crate) proof fn lemma_upper_text_fixed(s: Seq<char>)
    requires
        is_upper_ascii(s),
    ensures
        is_ascii_seq(s),
        upper_text(s) == s,
{
    assert(upper_seq(s) == s);
}

pub open spec fn views(vs: Seq<Vec<char>>) -> Seq<Seq<char>> {
    vs.map_values(|x: Vec<char>| x@)
}

/// Splits `v` at every `sep`.
pub fn split_chars(v: &Vec<char>, sep: char) -> (r: Vec<Vec<char>>)
    ensures
        views(r@) == split_on(v@, sep),
{
    let mut parts: Vec<Vec<char>> = Vec::new();
    let mut cur: Vec<char> = Vec::new();
    let mut i: usize = 0;
    assert(v@.take(0) == Seq::<char>::empty());
    assert(views(parts@).push(cur@) == split_on(v@.take(0), sep));
    while i < v.len()
        invariant
            i <= v@.len(),
            views(parts@).push(cur@) == split_on(v@.take(i as int), sep),
        decreases v@.len() - i,
    {
        let c = v[i];
        let ghost before = views(parts@);
        let ghost cur0 = cur@;
        assert(v@.take(i + 1).drop_last() == v@.take(i as int));
        proof {
            lemma_split_on_nonempty(v@.take(i as int), sep);
        }
        if c == sep {
            parts.push(cur);
            cur = Vec::new();
            assert(views(parts@) == before.push(cur0));
        } else {
            cur.push(c);
            assert(views(parts@).push(cur@) == before.push(cur0).update(before.len() as int, cur0.push(c)));
        }
        i = i + 1;
    }
    assert(v@.take(v@.len() as int) == v@);
    let ghost before = views(parts@);
    parts.push(cur);
    assert(views(parts@) == before.push(cur@));
    parts
}

/// Scanning state of `str::split_whitespace`: the words so far and whether
/// the last character belongs to a word.
pub open spec fn words_state(s: Seq<char>) -> (Seq<Seq<char>>, bool)
    decreases s.len(),
{
    if s.len() == 0 {
        (Seq::empty(), false)
    } else {
        let (ws, inw) = words_state(s.drop_last());
        let c = s.last();
        if is_ws(c) {
            (ws, false)
        } else if inw {
            (ws.update(ws.len() - 1, ws.last().push(c)), true)
        } else {
            (ws.push(seq![c]), true)
        }
    }
}

/// The maximal runs of non-whitespace characters of `s` (`str::split_whitespace`).
pub open spec fn words(s: Seq<char>) -> Seq<Seq<char>> {
    words_state(s).0
}

pub(crate) proof fn lemma_words_state(s: Seq<char>)
    ensures
        words_state(s).1 ==> words_state(s).0.len() > 0,
        forall|k: int| 0 <= k < words_state(s).0.len() ==> #[trigger] words_state(s).0[k].len() > 0,
    decreases s.len(),
{
    if s.len() > 0 {
        lemma_words_state(s.drop_last());
    }
}

/// Whether `s` is made of ASCII letters only.
pub open spec fn is_ascii_letters(s: Seq<char>) -> bool {
    forall|i: int| 0 <= i < s.len() ==> ('a' <= #[trigger] s[i] <= 'z') || ('A' <= s[i] <= 'Z')
}

proof fn lemma_words_append_token(y: Seq<char>, t: Seq<char>)
    requires
        !words_state(y).1,
        t.len() > 0,
        forall|i: int| 0 <= i < t.len() ==> !is_ws(#[trigger] t[i]),
    ensures
        words_state(y + t) == (words(y).push(t), true),
    decreases t.len(),
{
    if t.len() == 1 {
        assert(y + t == y.push(t[0]));
        assert((y + t).drop_last() == y);
        assert(seq![t[0]] == t);
    } else {
        let ti = t.drop_last();
        assert forall|i: int| 0 <= i < ti.len() implies !is_ws(#[trigger] ti[i]) by {
            assert(ti[i] == t[i]);
        }
        lemma_words_append_token(y, ti);
        assert((y + t).drop_last() == y + ti);
        assert((y + t).last() == t[t.len() - 1]);
        let ws = words(y).push(ti);
        assert(ws.last() == ti);
        assert(ti.push(t.last()) =~= t);
        assert(ws.update(ws.len() - 1, t) =~= words(y).push(t));
    }
}

/// The words of three letter-only tokens separated by single spaces are
/// those tokens.
pub(crate) proof fn lemma_words_three(a: Seq<char>, b: Seq<char>, c: Seq<char>)
    requires
        a.len() > 0 && b.len() > 0 && c.len() > 0,
        is_ascii_letters(a) && is_ascii_letters(b) && is_ascii_letters(c),
    ensures
        words(a + seq![' '] + b + seq![' '] + c) == seq![a, b, c],
{
    let e = Seq::<char>::empty();
    assert(words_state(e) == (Seq::<Seq<char>>::empty(), false));
    assert forall|i: int| 0 <= i < a.len() implies !is_ws(#[trigger] a[i]) by {}
    assert forall|i: int| 0 <= i < b.len() implies !is_ws(#[trigger] b[i]) by {}
    assert forall|i: int| 0 <= i < c.len() implies !is_ws(#[trigger] c[i]) by {}
    lemma_words_append_token(e, a);
    assert(e + a == a);
    let a1 = a + seq![' '];
    assert(a1.drop_last() == a && a1.last() == ' ');
    assert(words_state(a1) == (seq![a], false));
    lemma_words_append_token(a1, b);
    let b1 = a1 + b + seq![' '];
    assert(b1.drop_last() == a1 + b && b1.last() == ' ');
    assert(seq![a].push(b) == seq![a, b]);
    lemma_words_append_token(b1, c);
    assert(seq![a, b].push(c) == seq![a, b, c]);
    assert(a + seq![' '] + b + seq![' '] + c == b1 + c);
}

/// The words of `v`.
pub fn words_of(v: &Vec<char>) -> (r: Vec<Vec<char>>)
    ensures
        views(r@) == words(v@),
{
    let mut out: Vec<Vec<char>> = Vec::new();
    let mut inw = false;
    let mut i: usize = 0;
    assert(v@.take(0) == Seq::<char>::empty());
    while i < v.len()
        invariant
            i <= v@.len(),
            (views(out@), inw) == words_state(v@.take(i as int)),
        decreases v@.len() - i,
    {
        let c = v[i];
        let ghost before = views(out@);
        assert(v@.take(i + 1).drop_last() == v@.take(i as int));
        proof {
            lemma_words_state(v@.take(i as int));
        }
        if is_whitespace(c) {
            inw = false;
        } else if inw {
            let last = out.len() - 1;
            out[last].push(c);
            assert(views(out@) == before.update(last as int, before[last as int].push(c)));
        } else {
            let mut w: Vec<char> = Vec::new();
            w.push(c);
            assert(w@ == seq![c]);
            out.push(w);
            assert(views(out@) == before.push(seq![c]));
            inw = true;
        }
        i = i + 1;
    }
    assert(v@.take(v@.len() as int) == v@);
    out
}

/// The pieces joined with `sep` between consecutive pieces (`[String]::join`).
pub open spec fn join(parts: Seq<Seq<char>>, sep: Seq<char>) -> Seq<char>
    decreases parts.len(),
{
    if parts.len() == 0 {
        Seq::empty()
    } else if parts.len() == 1 {
        parts[0]
    } else {
        join(parts.drop_last(), sep) + sep + parts.last()
    }
}

/// Joins character vectors with the separator `sep`.
pub fn join_chars(parts: &Vec<Vec<char>>, sep: &str) -> (r: String)
    ensures
        r@ == join(views(parts@), sep@),
{
    let mut s = String::new();
    let mut i: usize = 0;
    while i < parts.len()
        invariant
            i <= parts@.len(),
            s@ == join(views(parts@).take(i as int), sep@),
        decreases parts@.len() - i,
    {
        assert(views(parts@).take(i + 1).drop_last() == views(parts@).take(i as int));
        if i > 0 {
            push_lit(&mut s, sep);
        }
        push_chars(&mut s, &parts[i]);
        i = i + 1;
    }
    assert(views(parts@).take(parts@.len() as int) == views(parts@));
    s
}


/// The upper-case mapping of a text under Unicode rules (`str::to_uppercase`).
pub uninterp spec fn unicode_upper(s: Seq<char>) -> Seq<char>;

/// Whether every character of `s` is ASCII.
pub open spec fn is_ascii_seq(s: Seq<char>) -> bool {
    forall|i: int| 0 <= i < s.len() ==> (#[trigger] s[i] as u32) < 0x80
}

/// The upper-case mapping of a text: on ASCII text it maps `a`-`z` to `A`-`Z`
/// and keeps every other character.
pub open spec fn upper_text(s: Seq<char>) -> Seq<char> {
    if is_ascii_seq(s) {
        upper_seq(s)
    } else {
        unicode_upper(s)
    }
}

/// `str::to_uppercase`: the result is the Unicode upper-case mapping of the
/// text, named `unicode_upper`; as its documentation says (beside
/// `str::to_ascii_uppercase`), on ASCII text that mapping is the ASCII one.
#[verifier::external_body]
pub(crate) fn to_uppercase(s: &str) -> (r: String)
    ensures
        r@ == unicode_upper(s@),
        is_ascii_seq(s@) ==> r@ == upper_seq(s@),
{
    s.to_uppercase()
}



/// Whether two texts have the same characters.
pub fn str_eq(a: &str, b: &str) -> (r: bool)
    ensures
        r == (a@ == b@),
{
    let va = chars_of(a);
    eq_lit(&va, b)
}

} // verus!
