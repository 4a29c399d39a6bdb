//! Text primitives shared by the configuration and metadata logic.
use vstd::prelude::*;

verus! {

/// The Unicode `White_Space` property, which is what `char::is_whitespace`
/// tests.
pub open spec fn is_white_space(c: char) -> bool {
    let u = c as u32;
    ||| 0x09 <= u <= 0x0D
    ||| u == 0x20
    ||| u == 0x85
    ||| u == 0xA0
    ||| u == 0x1680
    ||| 0x2000 <= u <= 0x200A
    ||| u == 0x2028
    ||| u == 0x2029
    ||| u == 0x202F
    ||| u == 0x205F
    ||| u == 0x3000
}

/// Whether `c` has the Unicode `White_Space` property.
pub fn is_white_space_char(c: char) -> (b: bool)
    ensures
        b == is_white_space(c),
{
    let u = c as u32;
    (0x09 <= u && u <= 0x0D) || u == 0x20 || u == 0x85 || u == 0xA0 || u == 0x1680 || (0x2000
        <= u && u <= 0x200A) || u == 0x2028 || u == 0x2029 || u == 0x202F || u == 0x205F || u
        == 0x3000
}

/// `r` is `s` with leading and trailing white space removed.
pub open spec fn is_trim_of(r: Seq<char>, s: Seq<char>) -> bool {
    exists|a: int, b: int|
        0 <= a <= b <= s.len() && r == s.subrange(a, b) && (forall|i: int|
            0 <= i < a ==> is_white_space(#[trigger] s[i])) && (forall|i: int|
            b <= i < s.len() ==> is_white_space(#[trigger] s[i])) && (a < b ==> !is_white_space(
            s[a]) && !is_white_space(s[b - 1]))
}

/// The trimmed form of `s`, as `str::trim` computes it.
pub open spec fn trimmed(s: Seq<char>) -> Seq<char> {
    choose|r: Seq<char>| is_trim_of(r, s)
}

/// Only one sequence is the trimmed form of a given sequence.
pub proof fn lemma_trim_unique(r1: Seq<char>, r2: Seq<char>, s: Seq<char>)
    requires
        is_trim_of(r1, s),
        is_trim_of(r2, s),
    ensures
        r1 == r2,
{
    let (a1, b1) = choose|a: int, b: int|
        0 <= a <= b <= s.len() && r1 == s.subrange(a, b) && (forall|i: int|
            0 <= i < a ==> is_white_space(#[trigger] s[i])) && (forall|i: int|
            b <= i < s.len() ==> is_white_space(#[trigger] s[i])) && (a < b ==> !is_white_space(
            s[a]) && !is_white_space(s[b - 1]));
    let (a2, b2) = choose|a: int, b: int|
        0 <= a <= b <= s.len() && r2 == s.subrange(a, b) && (forall|i: int|
            0 <= i < a ==> is_white_space(#[trigger] s[i])) && (forall|i: int|
            b <= i < s.len() ==> is_white_space(#[trigger] s[i])) && (a < b ==> !is_white_space(
            s[a]) && !is_white_space(s[b - 1]));
    if a1 < b1 && a2 < b2 {
        if a1 < a2 {
            assert(is_white_space(s[a1]));
        }
        if a2 < a1 {
            assert(is_white_space(s[a2]));
        }
        if b1 < b2 {
            assert(is_white_space(s[b2 - 1]));
        }
        if b2 < b1 {
            assert(is_white_space(s[b1 - 1]));
        }
        assert(r1 =~= r2);
    } else if a1 < b1 {
        assert(!is_white_space(s[a1]));
        if a1 < a2 {
            assert(is_white_space(s[a1]));
        } else {
            assert(is_white_space(s[a1]));
        }
    } else if a2 < b2 {
        assert(!is_white_space(s[a2]));
        if a2 < a1 {
            assert(is_white_space(s[a2]));
        } else {
            assert(is_white_space(s[a2]));
        }
    } else {
        assert(r1 =~= r2);
    }
}

/// `str::trim`: `s` without leading and trailing white space.
pub fn trim(s: &str) -> (r: &str)
    ensures
        r@ == trimmed(s@),
{
    let n = s.unicode_len();
    let mut a: usize = 0;
    while a < n && is_white_space_char(s.get_char(a))
        invariant
            n == s@.len(),
            a <= n,
            forall|i: int| 0 <= i < a ==> is_white_space(#[trigger] s@[i]),
        decreases n - a,
    {
        a = a + 1;
    }
    let mut b: usize = n;
    while b > a && is_white_space_char(s.get_char(b - 1))
        invariant
            n == s@.len(),
            a <= b <= n,
            forall|i: int| b <= i < n ==> is_white_space(#[trigger] s@[i]),
            a < n ==> !is_white_space(s@[a as int]),
        decreases b - a,
    {
        b = b - 1;
    }
    let r = s.substring_char(a, b);
    proof {
        assert(is_trim_of(r@, s@));
        lemma_trim_unique(r@, trimmed(s@), s@);
    }
    r
}


/// The pieces of `s` between occurrences of `sep`, as `str::split` with a
/// `char` pattern yields them; there is always at least one piece.
pub open spec fn split_on(s: Seq<char>, sep: char) -> Seq<Seq<char>>
    decreases s.len(),
{
    if s.len() == 0 {
        seq![Seq::empty()]
    } else {
        let init = split_on(s.drop_last(), sep);
        if s.last() == sep {
            init.push(Seq::empty())
        } else {
            init.update(init.len() - 1, init.last().push(s.last()))
        }
    }
}

pub proof fn lemma_split_on_nonempty(s: Seq<char>, sep: char)
    ensures
        split_on(s, sep).len() >= 1,
    decreases s.len(),
{
    if s.len() > 0 {
        lemma_split_on_nonempty(s.drop_last(), sep);
    }
}

/// `str::split(sep)` on a `char` separator.
pub fn split_char<'a>(s: &'a str, sep: char) -> (r: Vec<&'a str>)
    ensures
        r.deep_view() == split_on(s@, sep),
{
    let n = s.unicode_len();
    let mut pieces: Vec<&'a str> = Vec::new();
    let mut start: usize = 0;
    let mut i: usize = 0;
    proof {
        assert(s@.take(0) =~= Seq::<char>::empty());
        assert(s@.subrange(0, 0) =~= Seq::<char>::empty());
        assert(pieces.deep_view().push(s@.subrange(0, 0)) =~= seq![Seq::<char>::empty()]);
    }
    while i < n
        invariant
            n == s@.len(),
            start <= i <= n,
            split_on(s@.take(i as int), sep) == pieces.deep_view().push(
                s@.subrange(start as int, i as int),
            ),
        decreases n - i,
    {
        let c = s.get_char(i);
        proof {
            lemma_split_on_nonempty(s@.take(i as int), sep);
            assert(s@.take(i + 1).drop_last() =~= s@.take(i as int));
            assert(s@.take(i + 1).last() == c);
        }
        if c == sep {
            let piece = s.substring_char(start, i);
            let ghost old_pieces = pieces.deep_view();
            pieces.push(piece);
            proof {
                assert(pieces.deep_view() =~= old_pieces.push(piece@));
                assert(s@.subrange((i + 1) as int, (i + 1) as int) =~= Seq::<char>::empty());
            }
            start = i + 1;
        } else {
            proof {
                assert(s@.subrange(start as int, (i + 1) as int) =~= s@.subrange(
                    start as int,
                    i as int,
                ).push(c));
            }
        }
        i = i + 1;
        proof {
            assert(split_on(s@.take(i as int), sep) =~= pieces.deep_view().push(
                s@.subrange(start as int, i as int),
            ));
        }
    }
    let last = s.substring_char(start, n);
    let ghost old_pieces = pieces.deep_view();
    pieces.push(last);
    proof {
        assert(s@.take(n as int) =~= s@);
        assert(pieces.deep_view() =~= old_pieces.push(last@));
    }
    pieces
}


/// A line without the `'\r'` that precedes its `'\n'`.
pub open spec fn strip_cr(l: Seq<char>) -> Seq<char> {
    if l.len() > 0 && l.last() == '\r' {
        l.drop_last()
    } else {
        l
    }
}

/// The lines of `s`, as `str::lines` yields them: split at `"\n"` or
/// `"\r\n"`, with the final line ending optional.
pub open spec fn lines_of(s: Seq<char>) -> Seq<Seq<char>> {
    let p = split_on(s, '\n');
    let body = p.drop_last().map_values(|l: Seq<char>| strip_cr(l));
    if p.last().len() == 0 {
        body
    } else {
        body.push(p.last())
    }
}

fn strip_cr_str<'a>(l: &'a str) -> (r: &'a str)
    ensures
        r@ == strip_cr(l@),
{
    let n = l.unicode_len();
    if n > 0 && l.get_char(n - 1) == '\r' {
        let r = l.substring_char(0, n - 1);
        proof {
            assert(r@ =~= l@.drop_last());
        }
        r
    } else {
        l
    }
}

/// `str::lines`.
pub fn lines<'a>(s: &'a str) -> (r: Vec<&'a str>)
    ensures
        r.deep_view() == lines_of(s@),
{
    let p = split_char(s, '\n');
    proof {
        lemma_split_on_nonempty(s@, '\n');
    }
    let ghost pv = p.deep_view();
    let k = p.len() - 1;
    let mut r: Vec<&'a str> = Vec::new();
    let mut i: usize = 0;
    while i < k
        invariant
            pv == p.deep_view(),
            pv == split_on(s@, '\n'),
            k == p.len() - 1,
            i <= k,
            r.deep_view() =~= pv.drop_last().map_values(|l: Seq<char>| strip_cr(l)).take(
                i as int,
            ),
        decreases k - i,
    {
        let l = strip_cr_str(p[i]);
        let ghost old_r = r.deep_view();
        r.push(l);
        proof {
            assert(r.deep_view() =~= old_r.push(l@));
            assert(pv.drop_last().map_values(|l: Seq<char>| strip_cr(l)).take(i + 1) =~= old_r.push(
                l@,
            ));
        }
        i = i + 1;
    }
    proof {
        assert(pv.drop_last().map_values(|l: Seq<char>| strip_cr(l)).take(k as int)
            =~= pv.drop_last().map_values(|l: Seq<char>| strip_cr(l)));
    }
    let last = p[k];
    if last.unicode_len() > 0 {
        let ghost old_r = r.deep_view();
        r.push(last);
        proof {
            assert(r.deep_view() =~= old_r.push(last@));
        }
    }
    r
}

/// The pieces of `s` between white-space characters (empty pieces included).
pub open spec fn split_on_white_space(s: Seq<char>) -> Seq<Seq<char>>
    decreases s.len(),
{
    if s.len() == 0 {
        seq![Seq::empty()]
    } else {
        let init = split_on_white_space(s.drop_last());
        if is_white_space(s.last()) {
            init.push(Seq::empty())
        } else {
            init.update(init.len() - 1, init.last().push(s.last()))
        }
    }
}

pub proof fn lemma_split_on_white_space_nonempty(s: Seq<char>)
    ensures
        split_on_white_space(s).len() >= 1,
    decreases s.len(),
{
    if s.len() > 0 {
        lemma_split_on_white_space_nonempty(s.drop_last());
    }
}

/// The non-empty members of `ps`, in order.
pub open spec fn non_empty_only(ps: Seq<Seq<char>>) -> Seq<Seq<char>>
    decreases ps.len(),
{
    if ps.len() == 0 {
        Seq::empty()
    } else {
        let init = non_empty_only(ps.drop_last());
        if ps.last().len() > 0 {
            init.push(ps.last())
        } else {
            init
        }
    }
}

/// The words of `s`, as `str::split_whitespace` yields them: the maximal
/// runs of characters that are not white space.
pub open spec fn words_of(s: Seq<char>) -> Seq<Seq<char>> {
    non_empty_only(split_on_white_space(s))
}

/// `str::split_whitespace`.
pub fn split_words<'a>(s: &'a str) -> (r: Vec<&'a str>)
    ensures
        r.deep_view() == words_of(s@),
{
    let n = s.unicode_len();
    let mut words: Vec<&'a str> = Vec::new();
    let ghost mut done: Seq<Seq<char>> = Seq::empty();
    let mut start: usize = 0;
    let mut i: usize = 0;
    proof {
        assert(s@.take(0) =~= Seq::<char>::empty());
        assert(done.push(s@.subrange(0, 0)) =~= seq![Seq::<char>::empty()]);
    }
    while i < n
        invariant
            n == s@.len(),
            start <= i <= n,
            split_on_white_space(s@.take(i as int)) == done.push(
                s@.subrange(start as int, i as int),
            ),
            words.deep_view() == non_empty_only(done),
        decreases n - i,
    {
        let c = s.get_char(i);
        proof {
            lemma_split_on_white_space_nonempty(s@.take(i as int));
            assert(s@.take(i + 1).drop_last() =~= s@.take(i as int));
            assert(s@.take(i + 1).last() == c);
        }
        if is_white_space_char(c) {
            let ghost cur = s@.subrange(start as int, i as int);
            if start < i {
                let w = s.substring_char(start, i);
                let ghost old_w = words.deep_view();
                words.push(w);
                proof {
                    assert(words.deep_view() =~= old_w.push(w@));
                }
            }
            proof {
                assert(done.push(cur).drop_last() =~= done);
                done = done.push(cur);
                assert(s@.subrange((i + 1) as int, (i + 1) as int) =~= Seq::<char>::empty());
            }
            start = i + 1;
        } else {
            proof {
                assert(s@.subrange(start as int, (i + 1) as int) =~= s@.subrange(
                    start as int,
                    i as int,
                ).push(c));
            }
        }
        i = i + 1;
        proof {
            assert(split_on_white_space(s@.take(i as int)) =~= done.push(
                s@.subrange(start as int, i as int),
            ));
        }
    }
    proof {
        assert(s@.take(n as int) =~= s@);
        let cur = s@.subrange(start as int, n as int);
        assert(done.push(cur).drop_last() =~= done);
    }
    if start < n {
        let w = s.substring_char(start, n);
        let ghost old_w = words.deep_view();
        words.push(w);
        proof {
            assert(words.deep_view() =~= old_w.push(w@));
        }
    }
    words
}


/// The decimal digit character for `d < 10`.
pub open spec fn digit_char(d: nat) -> char {
    (48 + d) as char
}

/// The decimal form of `n`, without leading zeros.
pub open spec fn decimal(n: nat) -> Seq<char>
    decreases n,
{
    if n < 10 {
        seq![digit_char(n)]
    } else {
        decimal(n / 10).push(digit_char(n % 10))
    }
}

/// The decimal form of a signed integer, with a leading `'-'` when negative.
pub open spec fn signed_decimal(i: int) -> Seq<char> {
    if i < 0 {
        seq!['-'] + decimal((-i) as nat)
    } else {
        decimal(i as nat)
    }
}

fn digit_str(d: u64) -> (r: &'static str)
    requires
        d < 10,
    ensures
        r@ == seq![digit_char(d as nat)],
{
    let digits = "0123456789";
    proof {
        reveal_strlit("0123456789");
    }
    let r = digits.substring_char(d as usize, (d + 1) as usize);
    proof {
        assert(digits@[d as int] == digit_char(d as nat));
        assert(r@ =~= seq![digit_char(d as nat)]);
    }
    r
}

/// The decimal form of an unsigned integer, as `u64::to_string` gives it.
pub fn decimal_string(n: u64) -> (r: String)
    ensures
        r@ == decimal(n as nat),
    decreases n,
{
    if n < 10 {
        String::from_str(digit_str(n))
    } else {
        let mut r = decimal_string(n / 10);
        r.append(digit_str(n % 10));
        r
    }
}

/// The decimal form of a signed integer, as `i64::to_string` gives it.
pub fn signed_decimal_string(i: i64) -> (r: String)
    ensures
        r@ == signed_decimal(i as int),
{
    if i < 0 {
        let m: i128 = -(i as i128);
        let mut r = String::from_str("-");
        proof {
            reveal_strlit("-");
        }
        let d = decimal_string(m as u64);
        r.append(d.as_str());
        r
    } else {
        decimal_string(i as u64)
    }
}

/// `pieces` joined with `sep` between consecutive members, as `[String]::join`
/// gives it.
pub open spec fn join_with(pieces: Seq<Seq<char>>, sep: Seq<char>) -> Seq<char>
    decreases pieces.len(),
{
    if pieces.len() == 0 {
        Seq::empty()
    } else if pieces.len() == 1 {
        pieces[0]
    } else {
        join_with(pieces.drop_last(), sep) + sep + pieces.last()
    }
}

/// `[String]::join`.
pub fn join(pieces: &Vec<String>, sep: &str) -> (r: String)
    ensures
        r@ == join_with(pieces.deep_view(), sep@),
{
    let mut r = String::new();
    let ghost pv = pieces.deep_view();
    let mut i: usize = 0;
    while i < pieces.len()
        invariant
            pv == pieces.deep_view(),
            i <= pieces.len(),
            r@ == join_with(pv.take(i as int), sep@),
        decreases pieces.len() - i,
    {
        proof {
            assert(pv.take(i + 1).drop_last() =~= pv.take(i as int));
            assert(pv.take(i + 1).last() == pv[i as int]);
        }
        if i > 0 {
            r.append(sep);
        } else {
            proof {
                assert(r@ =~= Seq::<char>::empty());
            }
        }
        r.append(pieces[i].as_str());
        i = i + 1;
        proof {
            if i == 1 {
                assert(r@ =~= pv.take(1)[0]);
            } else {
                assert(r@ =~= join_with(pv.take(i as int), sep@));
            }
        }
    }
    proof {
        assert(pv.take(pieces.len() as int) =~= pv);
    }
    r
}

/// `base` extended by the component `comp`, as `Path::join` forms it on Unix:
/// an absolute component replaces the base, and a separator is put between
/// them where the base does not already end in one.
pub open spec fn path_join(base: Seq<char>, comp: Seq<char>) -> Seq<char> {
    if comp.len() > 0 && comp[0] == '/' {
        comp
    } else if base.len() == 0 {
        comp
    } else if base.last() == '/' {
        base + comp
    } else {
        base + seq!['/'] + comp
    }
}

/// `Path::join` on Unix, on paths held as text.
pub fn join_path(base: &str, comp: &str) -> (r: String)
    ensures
        r@ == path_join(base@, comp@),
{
    let bn = base.unicode_len();
    if comp.unicode_len() > 0 && comp.get_char(0) == '/' {
        String::from_str(comp)
    } else if bn == 0 {
        String::from_str(comp)
    } else if base.get_char(bn - 1) == '/' {
        let mut r = String::from_str(base);
        r.append(comp);
        r
    } else {
        let mut r = String::from_str(base);
        r.append("/");
        proof {
            reveal_strlit("/");
        }
        r.append(comp);
        r
    }
}


/// `str` equality.
pub fn str_eq(a: &str, b: &str) -> (r: bool)
    ensures
        r == (a@ == b@),
{
    let n = a.unicode_len();
    if n != b.unicode_len() {
        return false;
    }
    let mut i: usize = 0;
    while i < n
        invariant
            n == a@.len(),
            n == b@.len(),
            i <= n,
            forall|k: int| 0 <= k < i ==> a@[k] == b@[k],
        decreases n - i,
    {
        if a.get_char(i) != b.get_char(i) {
            return false;
        }
        i = i + 1;
    }
    proof {
        assert(a@ =~= b@);
    }
    true
}

/// `part` stands in `text` starting at position `o`.
pub open spec fn occurs_at(text: Seq<char>, o: int, part: Seq<char>) -> bool {
    &&& 0 <= o
    &&& o + part.len() <= text.len()
    &&& text.subrange(o, o + part.len()) == part
}

/// `part` stands somewhere in `text`.
pub open spec fn contains_part(text: Seq<char>, part: Seq<char>) -> bool {
    exists|o: int| #[trigger] occurs_at(text, o, part)
}

/// What stands in a text still stands there when more text follows.
pub broadcast proof fn lemma_occurs_extend(x: Seq<char>, y: Seq<char>, o: int, part: Seq<char>)
    requires
        occurs_at(x, o, part),
    ensures
        #[trigger] occurs_at(x + y, o, part),
{
    assert((x + y).subrange(o, o + part.len()) =~= x.subrange(o, o + part.len()));
}

/// The text appended last stands right after what came before it.
pub proof fn lemma_occurs_last(x: Seq<char>, y: Seq<char>)
    ensures
        occurs_at(x + y, x.len() as int, y),
{
    assert((x + y).subrange(x.len() as int, (x.len() + y.len()) as int) =~= y);
}

} // verus!
