//! Character-level text helpers shared by the parsers: line splitting,
//! trimming, joining, and conversions between `&str`, `String` and `Vec<char>`.

use vstd::prelude::*;

verus! {

/// Views of a vector of strings, as character sequences.
pub open spec fn strings_view(v: Seq<String>) -> Seq<Seq<char>> {
    v.map_values(|s: String| s@)
}

/// Length and elements of `strings_view`.
pub broadcast proof fn lemma_strings_view(v: Seq<String>)
    ensures
        #[trigger] strings_view(v).len() == v.len(),
        forall|k: int| 0 <= k < v.len() ==> #[trigger] strings_view(v)[k] == v[k]@,
{
}

/// Views after a push.
pub proof fn lemma_strings_push(v: Seq<String>, s: String)
    ensures
        strings_view(v.push(s)) == strings_view(v).push(s@),
{
    assert(strings_view(v.push(s)) =~= strings_view(v).push(s@)) by {
        assert forall|k: int| 0 <= k < v.len() + 1 implies #[trigger] strings_view(v.push(s))[k]
            == strings_view(v).push(s@)[k] by {
            if k < v.len() {
                assert(v.push(s)[k] == v[k]);
            }
        }
    }
}

/// A prefix one longer, by views.
pub proof fn lemma_chars_view_take(v: Seq<Vec<char>>, i: int)
    requires
        0 <= i < v.len(),
    ensures
        chars_view(v).take(i + 1) == chars_view(v).take(i).push(v[i]@),
        chars_view(v)[i] == v[i]@,
        chars_view(v).len() == v.len(),
{
    assert(chars_view(v).take(i + 1) =~= chars_view(v).take(i).push(v[i]@));
}

/// Concatenation of a sequence of character sequences.
pub open spec fn flatten(s: Seq<Seq<char>>) -> Seq<char>
    decreases s.len(),
{
    if s.len() == 0 {
        Seq::empty()
    } else {
        flatten(s.drop_last()) + s.last()
    }
}

/// Concatenation of a sequence of line sequences (lines stay lines).
pub open spec fn concat_lines(s: Seq<Seq<Seq<char>>>) -> Seq<Seq<char>>
    decreases s.len(),
{
    if s.len() == 0 {
        Seq::empty()
    } else {
        concat_lines(s.drop_last()) + s.last()
    }
}

/// `lines` joined with `sep` between consecutive elements.
pub open spec fn join(lines: Seq<Seq<char>>, sep: Seq<char>) -> Seq<char>
    decreases lines.len(),
{
    if lines.len() == 0 {
        Seq::empty()
    } else if lines.len() == 1 {
        lines[0]
    } else {
        join(lines.drop_last(), sep) + sep + lines.last()
    }
}

/// Unicode `White_Space` characters (what `char::is_whitespace` accepts).
pub open spec fn is_ws(c: char) -> bool {
    ||| c == ' '
    ||| ('\t' <= c && c <= '\r')
    ||| c == '\u{85}'
    ||| c == '\u{a0}'
    ||| c == '\u{1680}'
    ||| ('\u{2000}' <= c && c <= '\u{200a}')
    ||| c == '\u{2028}'
    ||| c == '\u{2029}'
    ||| c == '\u{202f}'
    ||| c == '\u{205f}'
    ||| c == '\u{3000}'
}

/// `s` with every trailing character satisfying `is_ws` removed.
pub open spec fn trim_end_ws(s: Seq<char>) -> Seq<char>
    decreases s.len(),
{
    if s.len() > 0 && is_ws(s.last()) {
        trim_end_ws(s.drop_last())
    } else {
        s
    }
}

/// `s` with every leading character satisfying `is_ws` removed.
pub open spec fn trim_start_ws(s: Seq<char>) -> Seq<char>
    decreases s.len(),
{
    if s.len() > 0 && is_ws(s[0]) {
        trim_start_ws(s.drop_first())
    } else {
        s
    }
}

/// `s` with surrounding whitespace removed (what `str::trim` returns).
pub open spec fn trim_ws(s: Seq<char>) -> Seq<char> {
    trim_start_ws(trim_end_ws(s))
}

/// `s` with every trailing `'\r'` removed.
pub open spec fn trim_end_cr(s: Seq<char>) -> Seq<char>
    decreases s.len(),
{
    if s.len() > 0 && s.last() == '\r' {
        trim_end_cr(s.drop_last())
    } else {
        s
    }
}

/// `s` with every trailing `'\r'` or `'\n'` removed.
pub open spec fn trim_end_eol(s: Seq<char>) -> Seq<char>
    decreases s.len(),
{
    if s.len() > 0 && (s.last() == '\r' || s.last() == '\n') {
        trim_end_eol(s.drop_last())
    } else {
        s
    }
}

/// `s` without one trailing `'\r'`, if it has one.
pub open spec fn strip_one_cr(s: Seq<char>) -> Seq<char> {
    if s.len() > 0 && s.last() == '\r' {
        s.drop_last()
    } else {
        s
    }
}

/// Line splitting state after reading a prefix of the text: the finished
/// lines and the line being read.
pub open spec fn lines_state(s: Seq<char>) -> (Seq<Seq<char>>, Seq<char>)
    decreases s.len(),
{
    if s.len() == 0 {
        (Seq::empty(), Seq::empty())
    } else {
        let (done, cur) = lines_state(s.drop_last());
        if s.last() == '\n' {
            (done.push(strip_one_cr(cur)), Seq::empty())
        } else {
            (done, cur.push(s.last()))
        }
    }
}

/// The lines of `s` as `str::lines` yields them: split at `'\n'`, a `'\r'`
/// right before the `'\n'` dropped, and no empty line after a final `'\n'`.
pub open spec fn str_lines(s: Seq<char>) -> Seq<Seq<char>> {
    let (done, cur) = lines_state(s);
    if cur.len() == 0 {
        done
    } else {
        done.push(cur)
    }
}

/// Views of a vector of character vectors.
pub open spec fn chars_view(v: Seq<Vec<char>>) -> Seq<Seq<char>> {
    v.map_values(|l: Vec<char>| l@)
}

/// Splitting state after reading a prefix of `s`: the finished pieces and
/// the piece being read.
pub open spec fn split_state(s: Seq<char>, sep: char) -> (Seq<Seq<char>>, Seq<char>)
    decreases s.len(),
{
    if s.len() == 0 {
        (Seq::empty(), Seq::empty())
    } else {
        let (done, cur) = split_state(s.drop_last(), sep);
        if s.last() == sep {
            (done.push(cur), Seq::empty())
        } else {
            (done, cur.push(s.last()))
        }
    }
}

/// The pieces of `s` between occurrences of `sep`, as `str::split` yields
/// them (empty pieces included; always at least one piece).
pub open spec fn split_on(s: Seq<char>, sep: char) -> Seq<Seq<char>> {
    let (done, cur) = split_state(s, sep);
    done.push(cur)
}

/// Splitting state of `str::split_whitespace` after reading a prefix of `s`.
pub open spec fn words_state(s: Seq<char>) -> (Seq<Seq<char>>, Seq<char>)
    decreases s.len(),
{
    if s.len() == 0 {
        (Seq::empty(), Seq::empty())
    } else {
        let (done, cur) = words_state(s.drop_last());
        if is_ws(s.last()) {
            if cur.len() > 0 {
                (done.push(cur), Seq::empty())
            } else {
                (done, cur)
            }
        } else {
            (done, cur.push(s.last()))
        }
    }
}

/// The non-empty runs of non-white-space characters of `s`, as
/// `str::split_whitespace` yields them.
pub open spec fn words(s: Seq<char>) -> Seq<Seq<char>> {
    let (done, cur) = words_state(s);
    if cur.len() > 0 {
        done.push(cur)
    } else {
        done
    }
}

/// Index of the first `c` in `s`, or -1.
pub open spec fn first_index(s: Seq<char>, c: char) -> int
    decreases s.len(),
{
    if s.len() == 0 {
        -1
    } else if s[0] == c {
        0
    } else {
        let k = first_index(s.drop_first(), c);
        if k < 0 {
            -1
        } else {
            k + 1
        }
    }
}

/// `str::split_once` with a character: the text before the first `c` and
/// the text after it.
pub open spec fn split_once(s: Seq<char>, c: char) -> Option<(Seq<char>, Seq<char>)> {
    let k = first_index(s, c);
    if k < 0 {
        None
    } else {
        Some((s.take(k), s.skip(k + 1)))
    }
}

/// Bounds of `first_index`.
pub proof fn lemma_first_index(s: Seq<char>, c: char)
    ensures
        -1 <= first_index(s, c) < s.len(),
        first_index(s, c) >= 0 ==> s[first_index(s, c)] == c,
        forall|j: int| 0 <= j < s.len() && (first_index(s, c) < 0 || j < first_index(s, c)) ==> s[j] != c,
    decreases s.len(),
{
    if s.len() > 0 && s[0] != c {
        lemma_first_index(s.drop_first(), c);
        assert forall|j: int| 0 <= j < s.len() && (first_index(s, c) < 0 || j < first_index(s, c)) implies s[j] != c by {
            if j > 0 {
                assert(s[j] == s.drop_first()[j - 1]);
            }
        }
    }
}

/// Index of the first `c` in `chars`, if there is one.
pub fn find_char(chars: &Vec<char>, c: char) -> (r: Option<usize>)
    ensures
        match r {
            Some(k) => k == first_index(chars@, c),
            None => first_index(chars@, c) < 0,
        },
{
    proof {
        lemma_first_index(chars@, c);
    }
    let mut i: usize = 0;
    while i < chars.len()
        invariant
            0 <= i <= chars@.len(),
            forall|j: int| 0 <= j < i ==> chars@[j] != c,
            -1 <= first_index(chars@, c) < chars@.len(),
            first_index(chars@, c) >= 0 ==> chars@[first_index(chars@, c)] == c,
            forall|j: int|
                0 <= j < chars@.len() && (first_index(chars@, c) < 0 || j < first_index(chars@, c))
                    ==> chars@[j] != c,
        decreases chars@.len() - i,
    {
        if chars[i] == c {
            return Some(i);
        }
        i = i + 1;
    }
    None
}

/// A fresh vector holding `chars[lo..hi]`.
pub fn sub_chars(chars: &Vec<char>, lo: usize, hi: usize) -> (out: Vec<char>)
    requires
        lo <= hi <= chars@.len(),
    ensures
        out@ == chars@.subrange(lo as int, hi as int),
{
    let mut out: Vec<char> = Vec::new();
    let mut i = lo;
    while i < hi
        invariant
            lo <= i <= hi <= chars@.len(),
            out@ == chars@.subrange(lo as int, i as int),
        decreases hi - i,
    {
        out.push(chars[i]);
        assert(chars@.subrange(lo as int, i + 1) =~= chars@.subrange(lo as int, i as int).push(
            chars@[i as int],
        ));
        i = i + 1;
    }
    out
}

/// The pieces of `chars` between occurrences of `sep`.
pub fn split_chars(chars: &Vec<char>, sep: char) -> (pieces: Vec<Vec<char>>)
    ensures
        chars_view(pieces@) == split_on(chars@, sep),
{
    let mut done: Vec<Vec<char>> = Vec::new();
    let mut cur: Vec<char> = Vec::new();
    let mut i: usize = 0;
    while i < chars.len()
        invariant
            0 <= i <= chars@.len(),
            (chars_view(done@), cur@) == split_state(chars@.take(i as int), sep),
        decreases chars@.len() - i,
    {
        let c = chars[i];
        assert(chars@.take(i + 1).drop_last() =~= chars@.take(i as int));
        if c == sep {
            let mut piece: Vec<char> = Vec::new();
            std::mem::swap(&mut piece, &mut cur);
            done.push(piece);
        } else {
            cur.push(c);
        }
        assert(chars_view(done@) =~= split_state(chars@.take(i + 1), sep).0);
        i = i + 1;
    }
    assert(chars@.take(chars@.len() as int) =~= chars@);
    done.push(cur);
    assert(chars_view(done@) =~= split_on(chars@, sep));
    done
}

/// The words of `chars`, as `str::split_whitespace` yields them.
pub fn words_of(chars: &Vec<char>) -> (ws: Vec<Vec<char>>)
    ensures
        chars_view(ws@) == words(chars@),
{
    let mut done: Vec<Vec<char>> = Vec::new();
    let mut cur: Vec<char> = Vec::new();
    let mut i: usize = 0;
    while i < chars.len()
        invariant
            0 <= i <= chars@.len(),
            (chars_view(done@), cur@) == words_state(chars@.take(i as int)),
        decreases chars@.len() - i,
    {
        let c = chars[i];
        assert(chars@.take(i + 1).drop_last() =~= chars@.take(i as int));
        if is_whitespace(c) {
            if cur.len() > 0 {
                let mut piece: Vec<char> = Vec::new();
                std::mem::swap(&mut piece, &mut cur);
                done.push(piece);
            }
        } else {
            cur.push(c);
        }
        assert(chars_view(done@) =~= words_state(chars@.take(i + 1)).0);
        i = i + 1;
    }
    assert(chars@.take(chars@.len() as int) =~= chars@);
    if cur.len() > 0 {
        done.push(cur);
    }
    assert(chars_view(done@) =~= words(chars@));
    done
}

/// Decimal digits of `n`, most significant first, as `to_string` writes them.
pub open spec fn decimal(n: nat) -> Seq<char>
    decreases n,
{
    if n < 10 {
        seq![digit_char(n)]
    } else {
        decimal(n / 10).push(digit_char(n % 10))
    }
}

/// The character of a decimal digit.
pub open spec fn digit_char(d: nat) -> char {
    if d == 0 {
        '0'
    } else if d == 1 {
        '1'
    } else if d == 2 {
        '2'
    } else if d == 3 {
        '3'
    } else if d == 4 {
        '4'
    } else if d == 5 {
        '5'
    } else if d == 6 {
        '6'
    } else if d == 7 {
        '7'
    } else if d == 8 {
        '8'
    } else {
        '9'
    }
}

/// The character of a decimal digit.
fn digit_of(d: usize) -> (c: char)
    requires
        d < 10,
    ensures
        c == digit_char(d as nat),
{
    if d == 0 {
        '0'
    } else if d == 1 {
        '1'
    } else if d == 2 {
        '2'
    } else if d == 3 {
        '3'
    } else if d == 4 {
        '4'
    } else if d == 5 {
        '5'
    } else if d == 6 {
        '6'
    } else if d == 7 {
        '7'
    } else if d == 8 {
        '8'
    } else {
        '9'
    }
}

/// `n` written in decimal.
pub fn decimal_string(n: usize) -> (s: String)
    ensures
        s@ == decimal(n as nat),
    decreases n,
{
    if n < 10 {
        let mut s = String::new();
        push_char(&mut s, digit_of(n));
        assert(s@ =~= seq![digit_char(n as nat)]);
        s
    } else {
        let mut s = decimal_string(n / 10);
        push_char(&mut s, digit_of(n % 10));
        s
    }
}

/// The characters of `s`, in order.
pub fn chars_of(s: &str) -> (out: Vec<char>)
    ensures
        out@ == s@,
{
    let mut out: Vec<char> = Vec::new();
    for c in it: s.chars()
        invariant
            out@ == it.seq().take(it.index() as int),
            it.seq() == s@,
    {
        out.push(c);
    }
    out
}

/// Appends one character to a string (`String::push`).
#[verifier::external_body]
pub(crate) fn push_char(s: &mut String, c: char)
    ensures
        final(s)@ == old(s)@.push(c),
{
    s.push(c);
}

/// The string made of `chars[lo..hi]`.
pub fn string_of_range(chars: &Vec<char>, lo: usize, hi: usize) -> (out: String)
    requires
        lo <= hi <= chars@.len(),
    ensures
        out@ == chars@.subrange(lo as int, hi as int),
{
    let mut out = String::new();
    let mut i = lo;
    while i < hi
        invariant
            lo <= i <= hi <= chars@.len(),
            out@ == chars@.subrange(lo as int, i as int),
        decreases hi - i,
    {
        push_char(&mut out, chars[i]);
        assert(chars@.subrange(lo as int, i + 1) =~= chars@.subrange(lo as int, i as int).push(
            chars@[i as int],
        ));
        i = i + 1;
    }
    out
}

/// The string made of all of `chars`.
pub fn string_of(chars: &Vec<char>) -> (out: String)
    ensures
        out@ == chars@,
{
    let out = string_of_range(chars, 0, chars.len());
    assert(chars@.subrange(0, chars@.len() as int) =~= chars@);
    out
}

/// A fresh copy of a string.
pub fn copy_string(s: &String) -> (out: String)
    ensures
        out@ == s@,
{
    s.clone()
}

/// A fresh copy of `lines[lo..hi]`.
pub fn copy_lines(lines: &Vec<String>, lo: usize, hi: usize) -> (out: Vec<String>)
    requires
        lo <= hi <= lines@.len(),
    ensures
        strings_view(out@) == strings_view(lines@).subrange(lo as int, hi as int),
{
    let mut out: Vec<String> = Vec::new();
    let mut i = lo;
    while i < hi
        invariant
            lo <= i <= hi <= lines@.len(),
            strings_view(out@) == strings_view(lines@).subrange(lo as int, i as int),
        decreases hi - i,
    {
        let ghost before = out@;
        let s = copy_string(&lines[i]);
        out.push(s);
        proof {
            broadcast use lemma_strings_view;

            let want = strings_view(lines@).subrange(lo as int, i + 1);
            assert(strings_view(before).len() == before.len());
            assert forall|k: int| 0 <= k < out@.len() implies strings_view(out@)[k] == want[k] by {
                if k < before.len() {
                    assert(strings_view(before)[k] == strings_view(lines@).subrange(
                        lo as int,
                        i as int,
                    )[k]);
                }
            }
            assert(strings_view(out@) =~= want);
        }
        i = i + 1;
    }
    out
}

/// A fresh copy of all of `lines`.
pub fn copy_all_lines(lines: &Vec<String>) -> (out: Vec<String>)
    ensures
        strings_view(out@) == strings_view(lines@),
{
    let out = copy_lines(lines, 0, lines.len());
    assert(strings_view(lines@).subrange(0, lines@.len() as int) =~= strings_view(lines@));
    out
}

/// Appends copies of all of `src` to `dst`.
pub fn append_lines(dst: &mut Vec<String>, src: &Vec<String>)
    ensures
        strings_view(final(dst)@) == strings_view(old(dst)@) + strings_view(src@),
{
    let mut i: usize = 0;
    while i < src.len()
        invariant
            0 <= i <= src@.len(),
            strings_view(dst@) == strings_view(old(dst)@) + strings_view(src@).take(i as int),
        decreases src@.len() - i,
    {
        let ghost before = dst@;
        let s = copy_string(&src[i]);
        dst.push(s);
        proof {
            broadcast use lemma_strings_view;

            let want = strings_view(old(dst)@) + strings_view(src@).take(i + 1);
            let prev = strings_view(old(dst)@) + strings_view(src@).take(i as int);
            assert(strings_view(before).len() == before.len());
            assert(strings_view(old(dst)@).len() == old(dst)@.len());
            assert forall|k: int| 0 <= k < dst@.len() implies strings_view(dst@)[k] == want[k] by {
                if k < before.len() {
                    assert(strings_view(before)[k] == prev[k]);
                }
            }
            assert(strings_view(dst@) =~= want);
        }
        i = i + 1;
    }
    assert(strings_view(src@).take(src@.len() as int) =~= strings_view(src@));
}

/// Whether two line vectors hold the same lines.
pub fn lines_equal(a: &Vec<String>, b: &Vec<String>) -> (r: bool)
    ensures
        r == (strings_view(a@) == strings_view(b@)),
{
    proof {
        broadcast use lemma_strings_view;

        assert(strings_view(a@).len() == a@.len());
        assert(strings_view(b@).len() == b@.len());
    }
    if a.len() != b.len() {
        return false;
    }
    let mut i: usize = 0;
    while i < a.len()
        invariant
            a@.len() == b@.len(),
            0 <= i <= a@.len(),
            forall|k: int| 0 <= k < i ==> a@[k]@ == b@[k]@,
        decreases a@.len() - i,
    {
        if a[i] != b[i] {
            proof {
                broadcast use lemma_strings_view;

                assert(strings_view(a@)[i as int] != strings_view(b@)[i as int]);
            }
            return false;
        }
        i = i + 1;
    }
    proof {
        broadcast use lemma_strings_view;

        assert(strings_view(a@) =~= strings_view(b@));
    }
    true
}

/// `s` with every trailing `'\r'` or `'\n'` removed.
pub fn trim_end_eol_string(s: &String) -> (out: String)
    ensures
        out@ == trim_end_eol(s@),
{
    let chars = chars_of(s.as_str());
    let mut r = chars.len();
    assert(chars@.subrange(0, r as int) =~= chars@);
    while r > 0 && (chars[r - 1] == '\r' || chars[r - 1] == '\n')
        invariant
            r <= chars@.len(),
            chars@ == s@,
            trim_end_eol(s@) == trim_end_eol(chars@.subrange(0, r as int)),
        decreases r,
    {
        assert(chars@.subrange(0, r as int).drop_last() =~= chars@.subrange(0, r - 1));
        r = r - 1;
    }
    string_of_range(&chars, 0, r)
}

/// Whether `c` is Unicode white space.
pub fn is_whitespace(c: char) -> (b: bool)
    ensures
        b == is_ws(c),
{
    c == ' ' || ('\t' <= c && c <= '\r') || c == '\u{85}' || c == '\u{a0}' || c == '\u{1680}'
        || ('\u{2000}' <= c && c <= '\u{200a}') || c == '\u{2028}' || c == '\u{2029}' || c
        == '\u{202f}' || c == '\u{205f}' || c == '\u{3000}'
}

proof fn lemma_trim_end_ws_prefix(s: Seq<char>, k: int)
    requires
        0 <= k <= s.len(),
        forall|j: int| k <= j < s.len() ==> is_ws(#[trigger] s[j]),
    ensures
        trim_end_ws(s) == trim_end_ws(s.subrange(0, k)),
    decreases s.len() - k,
{
    if k < s.len() {
        assert(s.drop_last() =~= s.subrange(0, s.len() - 1));
        lemma_trim_end_ws_prefix(s.drop_last(), k);
        assert(s.drop_last().subrange(0, k) =~= s.subrange(0, k));
    } else {
        assert(s.subrange(0, k) =~= s);
    }
}

proof fn lemma_trim_start_ws_suffix(s: Seq<char>, k: int)
    requires
        0 <= k <= s.len(),
        forall|j: int| 0 <= j < k ==> is_ws(#[trigger] s[j]),
    ensures
        trim_start_ws(s) == trim_start_ws(s.subrange(k, s.len() as int)),
    decreases k,
{
    if k > 0 {
        lemma_trim_start_ws_suffix(s.drop_first(), k - 1);
        assert(s.drop_first().subrange(k - 1, s.drop_first().len() as int) =~= s.subrange(
            k,
            s.len() as int,
        ));
    } else {
        assert(s.subrange(0, s.len() as int) =~= s);
    }
}

/// The bounds `[lo, hi)` of `chars[from..to]` with surrounding white space removed.
pub fn trim_bounds(chars: &Vec<char>, from: usize, to: usize) -> (r: (usize, usize))
    requires
        from <= to <= chars@.len(),
    ensures
        from <= r.0 <= r.1 <= to,
        chars@.subrange(r.0 as int, r.1 as int) == trim_ws(
            chars@.subrange(from as int, to as int),
        ),
{
    let ghost s = chars@.subrange(from as int, to as int);
    let mut hi = to;
    while hi > from && is_whitespace(chars[hi - 1])
        invariant
            from <= hi <= to <= chars@.len(),
            s == chars@.subrange(from as int, to as int),
            trim_end_ws(s) == trim_end_ws(chars@.subrange(from as int, hi as int)),
        decreases hi,
    {
        let ghost t = chars@.subrange(from as int, hi as int);
        assert(t.drop_last() =~= chars@.subrange(from as int, hi - 1));
        hi = hi - 1;
    }
    let ghost e = chars@.subrange(from as int, hi as int);
    assert(trim_end_ws(e) == e);
    let mut lo = from;
    while lo < hi && is_whitespace(chars[lo])
        invariant
            from <= lo <= hi <= to <= chars@.len(),
            e == chars@.subrange(from as int, hi as int),
            trim_start_ws(e) == trim_start_ws(chars@.subrange(lo as int, hi as int)),
        decreases hi - lo,
    {
        let ghost t = chars@.subrange(lo as int, hi as int);
        assert(t.drop_first() =~= chars@.subrange(lo + 1, hi as int));
        lo = lo + 1;
    }
    (lo, hi)
}

/// The lines of `text` as `str::lines` yields them, each as its characters.
pub fn str_lines_of(text: &str) -> (lines: Vec<Vec<char>>)
    ensures
        lines@.map_values(|l: Vec<char>| l@) == str_lines(text@),
{
    let chars = chars_of(text);
    let mut done: Vec<Vec<char>> = Vec::new();
    let mut cur: Vec<char> = Vec::new();
    let mut i: usize = 0;
    while i < chars.len()
        invariant
            0 <= i <= chars@.len(),
            chars@ == text@,
            (done@.map_values(|l: Vec<char>| l@), cur@) == lines_state(chars@.take(i as int)),
        decreases chars@.len() - i,
    {
        let c = chars[i];
        assert(chars@.take(i + 1).drop_last() =~= chars@.take(i as int));
        if c == '\n' {
            let ghost before = cur@;
            if cur.len() > 0 && cur[cur.len() - 1] == '\r' {
                cur.pop();
            }
            assert(cur@ == strip_one_cr(before));
            let mut line: Vec<char> = Vec::new();
            std::mem::swap(&mut line, &mut cur);
            done.push(line);
        } else {
            cur.push(c);
        }
        proof {
            assert(done@.map_values(|l: Vec<char>| l@) =~= lines_state(chars@.take(i + 1)).0);
        }
        i = i + 1;
    }
    assert(chars@.take(chars@.len() as int) =~= chars@);
    if cur.len() > 0 {
        done.push(cur);
        assert(done@.map_values(|l: Vec<char>| l@) =~= str_lines(text@));
    }
    done
}

/// Index of the last character of `chars[lo..hi]` that is not `'\r'`, plus one.
pub fn trim_end_cr_bound(chars: &Vec<char>, lo: usize, hi: usize) -> (r: usize)
    requires
        lo <= hi <= chars@.len(),
    ensures
        lo <= r <= hi,
        chars@.subrange(lo as int, r as int) == trim_end_cr(chars@.subrange(lo as int, hi as int)),
{
    let mut r = hi;
    while r > lo && chars[r - 1] == '\r'
        invariant
            lo <= r <= hi <= chars@.len(),
            trim_end_cr(chars@.subrange(lo as int, hi as int)) == trim_end_cr(
                chars@.subrange(lo as int, r as int),
            ),
        decreases r,
    {
        assert(chars@.subrange(lo as int, r as int).drop_last() =~= chars@.subrange(
            lo as int,
            r - 1,
        ));
        r = r - 1;
    }
    r
}

/// Whether `chars` starts with `prefix`.
pub fn has_prefix(chars: &Vec<char>, prefix: &Vec<char>) -> (b: bool)
    ensures
        b == (prefix@.len() <= chars@.len() && chars@.take(prefix@.len() as int) == prefix@),
{
    if prefix.len() > chars.len() {
        return false;
    }
    let mut i: usize = 0;
    while i < prefix.len()
        invariant
            0 <= i <= prefix@.len() <= chars@.len(),
            forall|j: int| 0 <= j < i ==> chars@[j] == prefix@[j],
        decreases prefix@.len() - i,
    {
        if chars[i] != prefix[i] {
            assert(chars@.take(prefix@.len() as int)[i as int] != prefix@[i as int]);
            return false;
        }
        i = i + 1;
    }
    assert(chars@.take(prefix@.len() as int) =~= prefix@);
    true
}

/// `lines` joined with `"\n"`.
pub fn join_newline(lines: &Vec<String>) -> (out: String)
    ensures
        out@ == join(strings_view(lines@), seq!['\n']),
{
    let mut out = String::new();
    let mut i: usize = 0;
    while i < lines.len()
        invariant
            0 <= i <= lines@.len(),
            out@ == join(strings_view(lines@.take(i as int)), seq!['\n']),
        decreases lines@.len() - i,
    {
        let ghost prev = strings_view(lines@.take(i as int));
        assert(strings_view(lines@.take(i + 1)).drop_last() =~= prev);
        if i > 0 {
            push_char(&mut out, '\n');
        }
        out.append(lines[i].as_str());
        proof {
            let now = strings_view(lines@.take(i + 1));
            assert(now.last() == lines@[i as int]@);
            if i == 0 {
                assert(now.len() == 1);
                assert(out@ =~= now[0]);
            } else {
                assert(out@ =~= join(prev, seq!['\n']) + seq!['\n'] + now.last());
            }
        }
        i = i + 1;
    }
    assert(lines@.take(lines@.len() as int) =~= lines@);
    out
}

/// The strings joined with `sep` between consecutive ones.
pub fn join_strings(parts: &Vec<String>, sep: &str) -> (s: String)
    ensures
        s@ == join(strings_view(parts@), sep@),
{
    let mut out = String::new();
    let mut i: usize = 0;
    while i < parts.len()
        invariant
            0 <= i <= parts@.len(),
            out@ == join(strings_view(parts@.take(i as int)), sep@),
        decreases parts@.len() - i,
    {
        let ghost prev = strings_view(parts@.take(i as int));
        assert(strings_view(parts@.take(i + 1)).drop_last() =~= prev);
        if i > 0 {
            out.append(sep);
        }
        out.append(parts[i].as_str());
        proof {
            let now = strings_view(parts@.take(i + 1));
            assert(now.last() == parts@[i as int]@);
            if i == 0 {
                assert(now.len() == 1);
                assert(out@ =~= now[0]);
            } else {
                assert(out@ =~= join(prev, sep@) + sep@ + now.last());
            }
        }
        i = i + 1;
    }
    assert(parts@.take(parts@.len() as int) =~= parts@);
    out
}

} // verus!
