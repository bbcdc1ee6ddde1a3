use vstd::prelude::*;

verus! {

/// Whether `c` has the Unicode `White_Space` property (Unicode's
/// `PropList.txt`): the controls U+0009 to U+000D, the space, U+0085, the
/// no-break space U+00A0, U+1680, the spaces U+2000 to U+200A, the line and
/// paragraph separators U+2028 and U+2029, U+202F, U+205F and U+3000.
pub open spec fn is_whitespace_char(c: char) -> bool {
    let v = c as u32;
    ||| 0x09 <= v <= 0x0D
    ||| v == 0x20
    ||| v == 0x85
    ||| v == 0xA0
    ||| v == 0x1680
    ||| 0x2000 <= v <= 0x200A
    ||| v == 0x2028
    ||| v == 0x2029
    ||| v == 0x202F
    ||| v == 0x205F
    ||| v == 0x3000
}

/// Calls `char::is_whitespace`, which is true exactly of the characters with
/// the Unicode `White_Space` property, as [`is_whitespace_char`] lists them.
#[verifier::external_body]
fn char_is_whitespace(c: char) -> (r: bool)
    ensures
        r == is_whitespace_char(c),
{
    c.is_whitespace()
}

/// The characters of `s`, in order.
pub fn chars_of(s: &str) -> (r: Vec<char>)
    ensures
        r@ == s@,
{
    let mut r: Vec<char> = Vec::new();
    for c in it: s.chars()
        invariant
            r@ == it.seq().take(it.index() as int),
    {
        r.push(c);
    }
    r
}


/// `s` without its leading whitespace.
pub open spec fn trim_start(s: Seq<char>) -> Seq<char>
    decreases s.len(),
{
    if s.len() > 0 && is_whitespace_char(s[0]) {
        trim_start(s.drop_first())
    } else {
        s
    }
}

/// `s` without its trailing whitespace.
pub open spec fn trim_end(s: Seq<char>) -> Seq<char>
    decreases s.len(),
{
    if s.len() > 0 && is_whitespace_char(s.last()) {
        trim_end(s.drop_last())
    } else {
        s
    }
}

/// `s` without leading and trailing whitespace, as `str::trim` gives it.
pub open spec fn trim(s: Seq<char>) -> Seq<char> {
    trim_end(trim_start(s))
}

/// The characters of `v` from `lo` up to (not including) `hi`.
pub fn copy_range(v: &Vec<char>, lo: usize, hi: usize) -> (r: Vec<char>)
    requires
        lo <= hi <= v@.len(),
    ensures
        r@ == v@.subrange(lo as int, hi as int),
{
    let mut r: Vec<char> = Vec::new();
    let mut i = lo;
    while i < hi
        invariant
            lo <= i <= hi <= v@.len(),
            r@ == v@.subrange(lo as int, i as int),
        decreases hi - i,
    {
        r.push(v[i]);
        proof {
            assert(v@.subrange(lo as int, i + 1) == v@.subrange(lo as int, i as int).push(
                v@[i as int],
            ));
        }
        i = i + 1;
    }
    r
}

/// Removes leading and trailing whitespace.
pub fn trim_chars(v: &Vec<char>) -> (r: Vec<char>)
    ensures
        r@ == trim(v@),
{
    let len = v.len();
    let mut lo: usize = 0;
    assert(v@.subrange(0, len as int) == v@);
    while lo < len && char_is_whitespace(v[lo])
        invariant
            len == v@.len(),
            lo <= len,
            trim_start(v@) == trim_start(v@.subrange(lo as int, len as int)),
        decreases len - lo,
    {
        proof {
            let t = v@.subrange(lo as int, len as int);
            assert(t.drop_first() == v@.subrange(lo + 1, len as int));
        }
        lo = lo + 1;
    }
    let ghost start = v@.subrange(lo as int, len as int);
    assert(trim_start(v@) == start);
    let mut hi: usize = len;
    while hi > lo && char_is_whitespace(v[hi - 1])
        invariant
            len == v@.len(),
            lo <= hi <= len,
            start == v@.subrange(lo as int, len as int),
            trim_end(start) == trim_end(v@.subrange(lo as int, hi as int)),
        decreases hi - lo,
    {
        proof {
            let t = v@.subrange(lo as int, hi as int);
            assert(t.drop_last() == v@.subrange(lo as int, hi - 1));
            assert(t.last() == v@[hi - 1]);
        }
        hi = hi - 1;
    }
    copy_range(v, lo, hi)
}

/// The pieces of `s` between occurrences of `sep`, as `str::split` gives
/// them: empty pieces included, at least one piece.
pub open spec fn split_on(s: Seq<char>, sep: char) -> Seq<Seq<char>>
    decreases s.len(),
{
    if s.len() == 0 {
        seq![Seq::<char>::empty()]
    } else {
        let p = split_on(s.drop_last(), sep);
        if s.last() == sep {
            p.push(Seq::<char>::empty())
        } else {
            p.update(p.len() - 1, p.last().push(s.last()))
        }
    }
}

/// `split_on` always yields at least one piece.
pub proof fn lemma_split_on_len(s: Seq<char>, sep: char)
    ensures
        split_on(s, sep).len() >= 1,
    decreases s.len(),
{
    if s.len() > 0 {
        lemma_split_on_len(s.drop_last(), sep);
    }
}

/// The views of a sequence of character vectors.
pub open spec fn views(v: Seq<Vec<char>>) -> Seq<Seq<char>> {
    v.map_values(|x: Vec<char>| x@)
}

/// Splits `v` at every `sep`.
pub fn split_chars(v: &Vec<char>, sep: char) -> (r: Vec<Vec<char>>)
    ensures
        views(r@) == split_on(v@, sep),
{
    let mut pieces: Vec<Vec<char>> = Vec::new();
    let mut cur: Vec<char> = Vec::new();
    let mut i: usize = 0;
    assert(v@.subrange(0, 0) == Seq::<char>::empty());
    assert(views(pieces@).push(cur@) == split_on(v@.subrange(0, 0), sep));
    while i < v.len()
        invariant
            i <= v@.len(),
            views(pieces@).push(cur@) == split_on(v@.subrange(0, i as int), sep),
        decreases v@.len() - i,
    {
        let c = v[i];
        let ghost before = views(pieces@);
        let ghost prefix = v@.subrange(0, i as int);
        proof {
            let next = v@.subrange(0, i + 1);
            assert(next.drop_last() == prefix);
            assert(next.last() == c);
            lemma_split_on_len(prefix, sep);
        }
        if c == sep {
            let done = cur;
            pieces.push(done);
            cur = Vec::new();
            assert(views(pieces@) == before.push(done@));
        } else {
            cur.push(c);
            assert(views(pieces@).push(cur@) == before.push(cur@.drop_last()).update(
                before.len() as int,
                cur@,
            ));
        }
        i = i + 1;
    }
    let ghost before = views(pieces@);
    let last = cur;
    pieces.push(last);
    assert(v@.subrange(0, v@.len() as int) == v@);
    assert(views(pieces@) == before.push(last@));
    pieces
}

/// The non-empty pieces, in order.
pub open spec fn non_empty(ps: Seq<Seq<char>>) -> Seq<Seq<char>>
    decreases ps.len(),
{
    if ps.len() == 0 {
        Seq::empty()
    } else {
        let r = non_empty(ps.drop_last());
        if ps.last().len() > 0 {
            r.push(ps.last())
        } else {
            r
        }
    }
}

/// The words of `s`: the non-empty pieces between spaces, as
/// `s.split(' ').filter(|s| !s.is_empty())` gives them.
pub open spec fn words(s: Seq<char>) -> Seq<Seq<char>> {
    non_empty(split_on(s, ' '))
}

/// Splits `v` into its space separated words.
pub fn words_of(v: &Vec<char>) -> (r: Vec<Vec<char>>)
    ensures
        views(r@) == words(v@),
{
    let pieces = split_chars(v, ' ');
    let mut out: Vec<Vec<char>> = Vec::new();
    let mut i: usize = 0;
    while i < pieces.len()
        invariant
            i <= pieces@.len(),
            views(out@) == non_empty(views(pieces@).subrange(0, i as int)),
        decreases pieces@.len() - i,
    {
        let ghost before = views(out@);
        proof {
            let ps = views(pieces@);
            assert(ps.subrange(0, i + 1).drop_last() == ps.subrange(0, i as int));
            assert(ps.subrange(0, i + 1).last() == pieces@[i as int]@);
        }
        if pieces[i].len() > 0 {
            let piece = copy_range(&pieces[i], 0, pieces[i].len());
            assert(piece@ == pieces@[i as int]@);
            out.push(piece);
            assert(views(out@) == before.push(piece@));
        }
        i = i + 1;
    }
    assert(views(pieces@).subrange(0, pieces@.len() as int) == views(pieces@));
    out
}

/// Whether `a` and `b` hold the same characters.
pub fn same_chars(a: &Vec<char>, b: &Vec<char>) -> (r: bool)
    ensures
        r == (a@ == b@),
{
    if a.len() != b.len() {
        return false;
    }
    let mut i: usize = 0;
    while i < a.len()
        invariant
            a@.len() == b@.len(),
            i <= a@.len(),
            forall|j: int| 0 <= j < i ==> a@[j] == b@[j],
        decreases a@.len() - i,
    {
        if a[i] != b[i] {
            return false;
        }
        i = i + 1;
    }
    assert(a@ =~= b@);
    true
}


/// Why a piece of text is not a `usize`, as `core::num::IntErrorKind` names it.
#[derive(Clone, Copy, Debug, PartialEq, Eq, Structural)]
pub enum IntError {
    Empty,
    InvalidDigit,
    PosOverflow,
}

/// Whether `c` is an ASCII decimal digit.
pub open spec fn is_digit(c: char) -> bool {
    '0' <= c && c <= '9'
}

/// The value of the decimal digit `c`.
pub open spec fn digit_value(c: char) -> int {
    c as int - '0' as int
}

/// Reads the decimal digits `ds` from left to right, failing at the first
/// character that is not a digit or at the first digit that takes the value
/// past `usize::MAX`.
pub open spec fn parse_digits(ds: Seq<char>) -> Result<usize, IntError>
    decreases ds.len(),
{
    if ds.len() == 0 {
        Ok(0usize)
    } else {
        match parse_digits(ds.drop_last()) {
            Err(e) => Err(e),
            Ok(acc) => {
                let c = ds.last();
                if !is_digit(c) {
                    Err(IntError::InvalidDigit)
                } else if acc * 10 + digit_value(c) > usize::MAX {
                    Err(IntError::PosOverflow)
                } else {
                    Ok((acc * 10 + digit_value(c)) as usize)
                }
            },
        }
    }
}

/// What `str::parse::<usize>` gives for `s`: an optional `+` followed by
/// decimal digits.
pub open spec fn parse_usize_spec(s: Seq<char>) -> Result<usize, IntError> {
    if s.len() == 0 {
        Err(IntError::Empty)
    } else if s.len() == 1 && (s[0] == '+' || s[0] == '-') {
        Err(IntError::InvalidDigit)
    } else if s[0] == '+' {
        parse_digits(s.drop_first())
    } else {
        parse_digits(s)
    }
}

/// Parses a decimal `usize`.
pub fn parse_usize(v: &Vec<char>) -> (r: Result<usize, IntError>)
    ensures
        r == parse_usize_spec(v@),
{
    let len = v.len();
    if len == 0 {
        return Err(IntError::Empty);
    }
    if len == 1 && (v[0] == '+' || v[0] == '-') {
        return Err(IntError::InvalidDigit);
    }
    let start: usize = if v[0] == '+' {
        1
    } else {
        0
    };
    let ghost ds = v@.subrange(start as int, len as int);
    assert(start == 1 ==> ds == v@.drop_first());
    assert(start == 0 ==> ds == v@);
    let mut acc: usize = 0;
    let mut i = start;
    assert(ds.subrange(0, 0) == Seq::<char>::empty());
    while i < len
        invariant
            len == v@.len(),
            start <= i <= len,
            ds == v@.subrange(start as int, len as int),
            start == 1 ==> ds == v@.drop_first(),
            start == 0 ==> ds == v@,
            v@.len() > 1 || (v@[0] != '+' && v@[0] != '-'),
            start <= 1,
            start == 1 <==> v@[0] == '+',
            parse_digits(ds.subrange(0, i - start)) == Ok::<usize, IntError>(acc),
        decreases len - i,
    {
        let c = v[i];
        proof {
            let next = ds.subrange(0, i - start + 1);
            assert(next.drop_last() == ds.subrange(0, i - start));
            assert(next.last() == c);
        }
        if !('0' <= c && c <= '9') {
            proof {
                lemma_parse_digits_error_stays(ds, (i - start + 1) as nat, IntError::InvalidDigit);
            }
            return Err(IntError::InvalidDigit);
        }
        let d = (c as u32 - '0' as u32) as usize;
        assert(d as int == digit_value(c));
        if acc > (usize::MAX - d) / 10 {
            proof {
                assert(acc * 10 + d > usize::MAX) by (nonlinear_arith)
                    requires
                        acc > (usize::MAX - d) / 10,
                        d <= 9,
                ;
                lemma_parse_digits_error_stays(ds, (i - start + 1) as nat, IntError::PosOverflow);
            }
            return Err(IntError::PosOverflow);
        }
        assert(acc * 10 + d <= usize::MAX) by (nonlinear_arith)
            requires
                acc <= (usize::MAX - d) / 10,
                d <= 9,
        ;
        acc = acc * 10 + d;
        i = i + 1;
    }
    assert(ds.subrange(0, len - start) == ds);
    Ok(acc)
}

/// Once reading digits fails, reading more digits fails the same way.
proof fn lemma_parse_digits_error_stays(ds: Seq<char>, n: nat, e: IntError)
    requires
        n <= ds.len(),
        parse_digits(ds.subrange(0, n as int)) == Err::<usize, IntError>(e),
    ensures
        parse_digits(ds) == Err::<usize, IntError>(e),
    decreases ds.len() - n,
{
    if n < ds.len() {
        let next = ds.subrange(0, n as int + 1);
        assert(next.drop_last() == ds.subrange(0, n as int));
        lemma_parse_digits_error_stays(ds, n + 1, e);
    } else {
        assert(ds.subrange(0, n as int) == ds);
    }
}

/// Lexicographic order of character sequences, which is the order of
/// `String`'s `Ord`.
pub open spec fn name_less(a: Seq<char>, b: Seq<char>) -> bool
    decreases a.len(),
{
    if a.len() == 0 {
        b.len() > 0
    } else if b.len() == 0 {
        false
    } else if a[0] < b[0] {
        true
    } else if a[0] == b[0] {
        name_less(a.drop_first(), b.drop_first())
    } else {
        false
    }
}

/// `name_less` is a strict total order.
pub proof fn lemma_name_less_trichotomy(a: Seq<char>, b: Seq<char>)
    ensures
        !name_less(a, a),
        a != b ==> (name_less(a, b) || name_less(b, a)),
        !(name_less(a, b) && name_less(b, a)),
    decreases a.len(),
{
    if a.len() > 0 && b.len() > 0 {
        lemma_name_less_trichotomy(a.drop_first(), b.drop_first());
        if a[0] == b[0] && a != b {
            assert(a.drop_first() != b.drop_first()) by {
                if a.drop_first() == b.drop_first() {
                    assert forall|k: int| 0 <= k < a.len() implies a[k] == b[k] by {
                        if k > 0 {
                            assert(a[k] == a.drop_first()[k - 1]);
                            assert(b[k] == b.drop_first()[k - 1]);
                        }
                    }
                    assert(a =~= b);
                }
            }
        }
    } else if a.len() > 0 {
        lemma_name_less_trichotomy(a.drop_first(), a.drop_first());
    } else if b.len() == 0 {
        assert(a =~= b);
    }
}

/// A name comes before every longer name that it begins: a proper prefix
/// sorts first (so the empty name comes before every other).
pub proof fn lemma_name_less_prefix(a: Seq<char>, b: Seq<char>)
    requires
        a.len() < b.len(),
        a == b.subrange(0, a.len() as int),
    ensures
        name_less(a, b),
        !name_less(b, a),
    decreases a.len(),
{
    lemma_name_less_trichotomy(a, b);
    if a.len() > 0 {
        assert(a[0] == b[0]);
        assert(a.drop_first() == b.drop_first().subrange(0, a.len() - 1));
        lemma_name_less_prefix(a.drop_first(), b.drop_first());
    }
}

/// Where two names first differ decides their order: if they agree on the
/// first `i` characters and `a[i] < b[i]`, then `a` comes before `b`,
/// whatever follows.
pub proof fn lemma_name_less_first_difference(a: Seq<char>, b: Seq<char>, i: int)
    requires
        0 <= i < a.len(),
        i < b.len(),
        a.subrange(0, i) == b.subrange(0, i),
        a[i] < b[i],
    ensures
        name_less(a, b),
        !name_less(b, a),
    decreases i,
{
    lemma_name_less_trichotomy(a, b);
    if i > 0 {
        assert(a[0] == a.subrange(0, i)[0]);
        assert(b[0] == b.subrange(0, i)[0]);
        assert(a.drop_first().subrange(0, i - 1) == a.subrange(0, i).drop_first());
        assert(b.drop_first().subrange(0, i - 1) == b.subrange(0, i).drop_first());
        assert(a.drop_first()[i - 1] == a[i]);
        assert(b.drop_first()[i - 1] == b[i]);
        lemma_name_less_first_difference(a.drop_first(), b.drop_first(), i - 1);
    }
}

/// `name_less` is transitive.
pub proof fn lemma_name_less_transitive(a: Seq<char>, b: Seq<char>, c: Seq<char>)
    requires
        name_less(a, b),
        name_less(b, c),
    ensures
        name_less(a, c),
    decreases a.len(),
{
    if a.len() > 0 && b.len() > 0 && c.len() > 0 && a[0] == b[0] && b[0] == c[0] {
        lemma_name_less_transitive(a.drop_first(), b.drop_first(), c.drop_first());
    }
}

/// Whether `a` comes before `b` in lexicographic order.
pub fn chars_less(a: &Vec<char>, b: &Vec<char>) -> (r: bool)
    ensures
        r == name_less(a@, b@),
{
    let mut i: usize = 0;
    assert(a@.subrange(0, a@.len() as int) == a@);
    assert(b@.subrange(0, b@.len() as int) == b@);
    while i < a.len() && i < b.len()
        invariant
            i <= a@.len(),
            i <= b@.len(),
            name_less(a@, b@) == name_less(a@.subrange(i as int, a@.len() as int), b@.subrange(i as int, b@.len() as int)),
        decreases a@.len() - i,
    {
        let ghost sa = a@.subrange(i as int, a@.len() as int);
        let ghost sb = b@.subrange(i as int, b@.len() as int);
        assert(sa[0] == a@[i as int]);
        assert(sb[0] == b@[i as int]);
        if a[i] < b[i] {
            return true;
        }
        if a[i] != b[i] {
            return false;
        }
        assert(sa.drop_first() == a@.subrange(i + 1, a@.len() as int));
        assert(sb.drop_first() == b@.subrange(i + 1, b@.len() as int));
        i = i + 1;
    }
    i == a.len() && i < b.len()
}

} // verus!
