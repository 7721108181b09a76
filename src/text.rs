//! Character-level helpers shared by the parsers.

use vstd::prelude::*;

verus! {

broadcast use vstd::string::group_string_axioms;

/// The characters of `s`, in order.
pub fn chars_of(s: &str) -> (r: Vec<char>)
    ensures
        r@ == s@,
{
    let mut r: Vec<char> = Vec::new();
    for c in it: s.chars()
        invariant
            r@ == it.seq().take(it.index() as int),
            it.seq() == s@,
    {
        r.push(c);
    }
    r
}

/// Relies on `String::push`: appends one character at the end.
#[verifier::external_body]
fn push_char(s: &mut String, c: char)
    ensures
        final(s)@ == old(s)@.push(c),
{
    s.push(c)
}

/// The string whose characters are `v`.
pub fn string_of(v: &[char]) -> (r: String)
    ensures
        r@ == v@,
{
    let mut r = String::new();
    let mut i: usize = 0;
    while i < v.len()
        invariant
            i <= v@.len(),
            r@ == v@.take(i as int),
        decreases v@.len() - i,
    {
        push_char(&mut r, v[i]);
        assert(v@.take(i as int).push(v@[i as int]) =~= v@.take(i as int + 1));
        i = i + 1;
    }
    assert(v@.take(v@.len() as int) =~= v@);
    r
}


/// The pieces of `s` between occurrences of `sep`, as `str::split` yields
/// them: `k` separators give `k + 1` pieces, empty ones included.
pub open spec fn split_spec(s: Seq<char>, sep: char) -> Seq<Seq<char>>
    decreases s.len(),
{
    if s.len() == 0 {
        seq![Seq::empty()]
    } else {
        let p = split_spec(s.drop_last(), sep);
        if s.last() == sep {
            p.push(Seq::empty())
        } else {
            p.update(p.len() - 1, p.last().push(s.last()))
        }
    }
}

pub proof fn lemma_split_nonempty(s: Seq<char>, sep: char)
    ensures
        split_spec(s, sep).len() >= 1,
    decreases s.len(),
{
    if s.len() > 0 {
        lemma_split_nonempty(s.drop_last(), sep);
    }
}

/// The views of a sequence of character vectors.
pub open spec fn views(v: Seq<Vec<char>>) -> Seq<Seq<char>> {
    v.map_values(|x: Vec<char>| x@)
}

/// Splits `v` at every `sep`.
pub fn split_on(v: &[char], sep: char) -> (r: Vec<Vec<char>>)
    ensures
        views(r@) == split_spec(v@, sep),
{
    let mut done: Vec<Vec<char>> = Vec::new();
    let mut cur: Vec<char> = Vec::new();
    let mut i: usize = 0;
    while i < v.len()
        invariant
            i <= v@.len(),
            views(done@).push(cur@) == split_spec(v@.take(i as int), sep),
        decreases v@.len() - i,
    {
        let c = v[i];
        let ghost pre = v@.take(i as int);
        let ghost before = views(done@);
        assert(v@.take(i as int + 1).drop_last() =~= pre);
        assert(v@.take(i as int + 1).last() == c);
        if c == sep {
            let piece = cur;
            cur = Vec::new();
            done.push(piece);
            assert(views(done@) =~= before.push(piece@));
        } else {
            let ghost oc = cur@;
            cur.push(c);
            assert(before.push(oc).update(before.len() as int, oc.push(c)) =~= before.push(cur@));
        }
        i = i + 1;
    }
    assert(v@.take(v@.len() as int) =~= v@);
    let ghost before = views(done@);
    done.push(cur);
    assert(views(done@) =~= before.push(cur@));
    done
}

/// A line without the carriage return that ended it, if any.
pub open spec fn strip_cr(l: Seq<char>) -> Seq<char> {
    if l.len() > 0 && l.last() == '\r' {
        l.drop_last()
    } else {
        l
    }
}

/// The lines of `s` as `str::lines` yields them: split at `\n`, a `\r`
/// just before a `\n` dropped, and no empty line after a final `\n`.
pub open spec fn lines_spec(s: Seq<char>) -> Seq<Seq<char>> {
    let p = split_spec(s, '\n');
    let body = p.take(p.len() - 1).map_values(|l: Seq<char>| strip_cr(l));
    if p.last().len() == 0 {
        body
    } else {
        body.push(p.last())
    }
}

/// Splits `v` into lines.
pub fn lines_of(v: &[char]) -> (r: Vec<Vec<char>>)
    ensures
        views(r@) == lines_spec(v@),
{
    let pieces = split_on(v, '\n');
    proof {
        lemma_split_nonempty(v@, '\n');
    }
    let ghost p = split_spec(v@, '\n');
    let n = pieces.len();
    let mut r: Vec<Vec<char>> = Vec::new();
    let mut i: usize = 0;
    while i + 1 < n
        invariant
            n == pieces@.len(),
            n >= 1,
            i + 1 <= n,
            views(pieces@) == p,
            views(r@) == p.take(i as int).map_values(|l: Seq<char>| strip_cr(l)),
        decreases n - i,
    {
        let piece = &pieces[i];
        assert(piece@ == p[i as int]);
        let ghost before = views(r@);
        let len = piece.len();
        let mut line: Vec<char> = piece.clone();
        if len > 0 && piece[len - 1] == '\r' {
            line.pop();
        }
        assert(line@ == strip_cr(p[i as int]));
        r.push(line);
        assert(views(r@) =~= before.push(strip_cr(p[i as int])));
        assert(p.take(i as int + 1) =~= p.take(i as int).push(p[i as int]));
        assert(views(r@) =~= p.take(i as int + 1).map_values(|l: Seq<char>| strip_cr(l)));
        i = i + 1;
    }
    let last = &pieces[n - 1];
    assert(last@ == p.last());
    if last.len() > 0 {
        let ghost before = views(r@);
        r.push(last.clone());
        assert(views(r@) =~= before.push(p.last()));
    }
    r
}

/// Unicode white space, the set that `char::is_whitespace` and the regex
/// class `\s` use.
pub open spec fn is_space(c: char) -> bool {
    let u = c as u32;
    (9 <= u <= 13) || u == 32 || u == 0x85 || u == 0xA0 || u == 0x1680 || (0x2000 <= u
        <= 0x200A) || u == 0x2028 || u == 0x2029 || u == 0x202F || u == 0x205F || u == 0x3000
}

/// Whether `c` is white space.
pub fn is_space_char(c: char) -> (r: bool)
    ensures
        r == is_space(c),
{
    let u = c as u32;
    (9 <= u && u <= 13) || u == 32 || u == 0x85 || u == 0xA0 || u == 0x1680 || (0x2000 <= u && u
        <= 0x200A) || u == 0x2028 || u == 0x2029 || u == 0x202F || u == 0x205F || u == 0x3000
}

/// An ASCII decimal digit.
pub open spec fn is_digit(c: char) -> bool {
    48 <= c as u32 <= 57
}

/// Whether `c` is an ASCII digit.
pub fn is_digit_char(c: char) -> (r: bool)
    ensures
        r == is_digit(c),
{
    48 <= c as u32 && c as u32 <= 57
}

/// The maximal runs of non-space characters of `s`, as `str::split_whitespace`
/// yields them.
pub open spec fn words_spec(s: Seq<char>) -> Seq<Seq<char>>
    decreases s.len(),
{
    if s.len() == 0 {
        Seq::empty()
    } else {
        let w = words_spec(s.drop_last());
        if is_space(s.last()) {
            w
        } else if s.len() >= 2 && !is_space(s[s.len() - 2]) {
            w.update(w.len() - 1, w.last().push(s.last()))
        } else {
            w.push(seq![s.last()])
        }
    }
}

pub proof fn lemma_words_last(s: Seq<char>)
    requires
        s.len() > 0,
        !is_space(s.last()),
    ensures
        words_spec(s).len() > 0,
    decreases s.len(),
{
    if s.len() >= 2 && !is_space(s[s.len() - 2]) {
        lemma_words_last(s.drop_last());
    }
}

/// Splits `v` into its whitespace-separated words.
pub fn words_of(v: &[char]) -> (r: Vec<Vec<char>>)
    ensures
        views(r@) == words_spec(v@),
{
    let mut done: Vec<Vec<char>> = Vec::new();
    let mut cur: Vec<char> = Vec::new();
    let mut in_word = false;
    let mut i: usize = 0;
    while i < v.len()
        invariant
            i <= v@.len(),
            in_word == (i > 0 && !is_space(v@[i - 1])),
            in_word ==> views(done@).push(cur@) == words_spec(v@.take(i as int)),
            !in_word ==> views(done@) == words_spec(v@.take(i as int)),
            !in_word ==> cur@.len() == 0,
        decreases v@.len() - i,
    {
        let c = v[i];
        let ghost pre = v@.take(i as int);
        let ghost before = views(done@);
        let ghost cur_before = cur@;
        assert(v@.take(i as int + 1).drop_last() =~= pre);
        assert(v@.take(i as int + 1).last() == c);
        if i > 0 {
            assert(v@.take(i as int + 1)[i - 1] == v@[i - 1]);
        }
        if is_space_char(c) {
            if in_word {
                let piece = cur;
                cur = Vec::new();
                done.push(piece);
                assert(views(done@) =~= before.push(piece@));
            }
            in_word = false;
        } else {
            cur.push(c);
            if in_word {
                assert(before.push(cur_before).update(before.len() as int, cur_before.push(c))
                    =~= before.push(cur@));
            } else {
                assert(cur_before.len() == 0);
                assert(cur@ =~= seq![c]);
            }
            in_word = true;
        }
        i = i + 1;
    }
    assert(v@.take(v@.len() as int) =~= v@);
    if in_word {
        let ghost before = views(done@);
        done.push(cur);
        assert(views(done@) =~= before.push(cur@));
    }
    done
}

pub open spec fn digit_value(c: char) -> nat {
    (c as u32 - 48) as nat
}

/// The number that a run of decimal digits denotes.
pub open spec fn decimal_value(d: Seq<char>) -> nat
    decreases d.len(),
{
    if d.len() == 0 {
        0
    } else {
        decimal_value(d.drop_last()) * 10 + digit_value(d.last())
    }
}

/// The digits of an unsigned integer literal: one leading `+` is allowed.
pub open spec fn unsigned_digits(w: Seq<char>) -> Seq<char> {
    if w.len() > 0 && w[0] == '+' {
        w.drop_first()
    } else {
        w
    }
}

/// What parsing `w` as an unsigned integer no larger than `max` gives, as
/// `FromStr` for the unsigned integer types does it: an optional `+`, at
/// least one ASCII digit and nothing else, and a value that fits.
pub open spec fn parse_unsigned_spec(w: Seq<char>, max: nat) -> Option<nat> {
    let d = unsigned_digits(w);
    if d.len() > 0 && (forall|i: int| 0 <= i < d.len() ==> is_digit(#[trigger] d[i]))
        && decimal_value(d) <= max {
        Some(decimal_value(d))
    } else {
        None
    }
}

pub open spec fn opt_nat(r: Option<u64>) -> Option<nat> {
    match r {
        Some(x) => Some(x as nat),
        None => None,
    }
}

/// Parses `w` as an unsigned integer no larger than `max`.
pub fn parse_unsigned(w: &[char], max: u64) -> (r: Option<u64>)
    ensures
        opt_nat(r) == parse_unsigned_spec(w@, max as nat),
{
    let start: usize = if w.len() > 0 && w[0] == '+' {
        1
    } else {
        0
    };
    let ghost d = unsigned_digits(w@);
    assert(d =~= w@.subrange(start as int, w@.len() as int));
    if start >= w.len() {
        return None;
    }
    let mut acc: u128 = 0;
    let mut i: usize = start;
    while i < w.len()
        invariant
            start <= i <= w@.len(),
            d == unsigned_digits(w@),
            d =~= w@.subrange(start as int, w@.len() as int),
            forall|k: int| 0 <= k < i - start ==> is_digit(#[trigger] d[k]),
            acc == if decimal_value(d.take(i - start)) <= max as nat {
                decimal_value(d.take(i - start))
            } else {
                max as nat + 1
            },
        decreases w@.len() - i,
    {
        let c = w[i];
        assert(d[i - start] == c);
        if !is_digit_char(c) {
            assert(!is_digit(d[i - start]));
            return None;
        }
        let ghost prev = decimal_value(d.take(i - start));
        assert(d.take(i - start + 1).drop_last() =~= d.take(i - start));
        assert(decimal_value(d.take(i - start + 1)) == prev * 10 + digit_value(c));
        let dv = (c as u32 - 48) as u128;
        if acc <= max as u128 {
            acc = acc * 10 + dv;
            if acc > max as u128 {
                acc = max as u128 + 1;
            }
        }
        i = i + 1;
    }
    assert(d.take(w@.len() - start) =~= d);
    if acc <= max as u128 {
        Some(acc as u64)
    } else {
        None
    }
}

/// Whether `pat` occurs in `s` at position `k`.
pub open spec fn occurs_at(s: Seq<char>, pat: Seq<char>, k: int) -> bool {
    0 <= k && k + pat.len() <= s.len() && s.subrange(k, k + pat.len()) == pat
}

pub open spec fn contains_spec(s: Seq<char>, pat: Seq<char>) -> bool {
    exists|k: int| occurs_at(s, pat, k)
}

/// Whether `pat` occurs somewhere in `s`.
pub fn contains(s: &[char], pat: &[char]) -> (r: bool)
    ensures
        r == contains_spec(s@, pat@),
{
    if pat.len() > s.len() {
        return false;
    }
    if pat.len() == 0 {
        assert(s@.subrange(0, 0) =~= pat@);
        assert(occurs_at(s@, pat@, 0));
        return true;
    }
    let slen = s.len();
    let last = slen - pat.len();
    let mut k: usize = 0;
    while k <= last
        invariant
            last == s@.len() - pat@.len(),
            slen == s@.len(),
            pat@.len() >= 1,
            k <= last + 1,
            forall|j: int| 0 <= j < k ==> !occurs_at(s@, pat@, j),
        decreases last + 1 - k,
    {
        let mut j: usize = 0;
        let mut same = true;
        while j < pat.len()
            invariant
                k <= last,
                last == s@.len() - pat@.len(),
                slen == s@.len(),
                pat@.len() <= s@.len(),
                j <= pat@.len(),
                same == (forall|m: int| 0 <= m < j ==> s@[k + m] == pat@[m]),
            decreases pat@.len() - j,
        {
            if s[k + j] != pat[j] {
                same = false;
            }
            j = j + 1;
        }
        if same {
            assert(s@.subrange(k as int, k + pat@.len()) =~= pat@);
            assert(occurs_at(s@, pat@, k as int));
            return true;
        }
        assert(!occurs_at(s@, pat@, k as int)) by {
            if occurs_at(s@, pat@, k as int) {
                let m = choose|m: int| 0 <= m < pat@.len() && s@[k + m] != pat@[m];
                assert(s@.subrange(k as int, k + pat@.len())[m] == s@[k + m]);
            }
        }
        k = k + 1;
    }
    assert forall|j: int| !occurs_at(s@, pat@, j) by {
        if occurs_at(s@, pat@, j) {
            assert(j <= last);
        }
    }
    false
}

} // verus!
