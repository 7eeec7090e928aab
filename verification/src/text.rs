//! Character-level text operations on `Seq<char>` models: whitespace
//! trimming, suffix stripping, ASCII upper-casing and splitting on a separator.

use vstd::prelude::*;
use crate::std_calls::push_char;

verus! {

/// The code points that carry the Unicode `White_Space` property.
pub open spec fn is_white_space_spec(c: char) -> bool {
    let n = c as u32;
    ||| 0x09 <= n <= 0x0D
    ||| n == 0x20
    ||| n == 0x85
    ||| n == 0xA0
    ||| n == 0x1680
    ||| 0x2000 <= n <= 0x200A
    ||| n == 0x2028
    ||| n == 0x2029
    ||| n == 0x202F
    ||| n == 0x205F
    ||| n == 0x3000
}

/// Whether `c` is a Unicode white-space character.
pub fn is_white_space(c: char) -> (b: bool)
    ensures
        b == is_white_space_spec(c),
{
    let n = c as u32;
    (0x09 <= n && n <= 0x0D) || n == 0x20 || n == 0x85 || n == 0xA0 || n == 0x1680 || (0x2000
        <= n && n <= 0x200A) || n == 0x2028 || n == 0x2029 || n == 0x202F || n == 0x205F || n
        == 0x3000
}

/// `s` without its leading white space.
pub open spec fn trim_start_spec(s: Seq<char>) -> Seq<char>
    decreases s.len(),
{
    if s.len() > 0 && is_white_space_spec(s[0]) {
        trim_start_spec(s.drop_first())
    } else {
        s
    }
}

/// `s` without its trailing white space.
pub open spec fn trim_end_spec(s: Seq<char>) -> Seq<char>
    decreases s.len(),
{
    if s.len() > 0 && is_white_space_spec(s.last()) {
        trim_end_spec(s.drop_last())
    } else {
        s
    }
}

/// `s` without its leading and trailing white space.
pub open spec fn trim_spec(s: Seq<char>) -> Seq<char> {
    trim_end_spec(trim_start_spec(s))
}

/// The characters of `s`, in order.
pub fn chars_of(s: &str) -> (v: Vec<char>)
    ensures
        v@ == s@,
{
    broadcast use vstd::string::axiom_spec_iter;

    let mut v: Vec<char> = Vec::new();
    for c in it: s.chars()
        invariant
            it.seq() == s@,
            v@ == s@.take(it.index()),
    {
        v.push(c);
    }
    v
}

/// A string made of the characters `v[lo..hi]`.
pub fn string_of_range(v: &Vec<char>, lo: usize, hi: usize) -> (s: String)
    requires
        lo <= hi <= v.len(),
    ensures
        s@ == v@.subrange(lo as int, hi as int),
{
    let mut s = String::new();
    let mut k = lo;
    while k < hi
        invariant
            lo <= k <= hi <= v.len(),
            s@ == v@.subrange(lo as int, k as int),
        decreases hi - k,
    {
        push_char(&mut s, v[k]);
        k = k + 1;
        assert(s@ =~= v@.subrange(lo as int, k as int));
    }
    s
}

/// `s` without leading and trailing white space (`str::trim`).
pub fn trim(s: &str) -> (r: String)
    ensures
        r@ == trim_spec(s@),
{
    let v = chars_of(s);
    let n = v.len();
    let mut i: usize = 0;
    assert(v@.skip(0) =~= v@);
    while i < n && is_white_space(v[i])
        invariant
            0 <= i <= n == v@.len(),
            trim_start_spec(v@) == trim_start_spec(v@.skip(i as int)),
        decreases n - i,
    {
        assert(v@.skip(i as int).drop_first() =~= v@.skip(i + 1));
        i = i + 1;
    }
    let ghost t = v@.skip(i as int);
    assert(trim_start_spec(t) == t);
    let mut j: usize = n;
    while j > i && is_white_space(v[j - 1])
        invariant
            i <= j <= n == v@.len(),
            t == v@.skip(i as int),
            trim_end_spec(t) == trim_end_spec(v@.subrange(i as int, j as int)),
        decreases j,
    {
        assert(v@.subrange(i as int, j as int).drop_last() =~= v@.subrange(i as int, j - 1));
        j = j - 1;
    }
    assert(t =~= v@.subrange(i as int, n as int));
    string_of_range(&v, i, j)
}

/// Whether `pat` occurs in `s` at position `pos`.
pub open spec fn occurs_at(s: Seq<char>, pat: Seq<char>, pos: int) -> bool {
    0 <= pos && pos + pat.len() <= s.len() && s.subrange(pos, pos + pat.len()) == pat
}

/// Whether `pat` occurs in `v` at position `pos`.
pub fn matches_at(v: &Vec<char>, pat: &Vec<char>, pos: usize) -> (b: bool)
    ensures
        b == occurs_at(v@, pat@, pos as int),
{
    if pos > v.len() || pat.len() > v.len() - pos {
        return false;
    }
    let mut k: usize = 0;
    while k < pat.len()
        invariant
            pos + pat.len() <= v.len(),
            0 <= k <= pat.len(),
            forall|q: int| 0 <= q < k ==> v@[pos + q] == pat@[q],
        decreases pat.len() - k,
    {
        if v[pos + k] != pat[k] {
            assert(v@.subrange(pos as int, pos + pat.len())[k as int] != pat@[k as int]);
            return false;
        }
        k = k + 1;
    }
    assert(v@.subrange(pos as int, pos + pat.len()) =~= pat@);
    true
}

/// `s` with every trailing occurrence of `pat` removed, one after another
/// from the end (`str::trim_end_matches` with a string pattern).
pub open spec fn trim_end_matches_spec(s: Seq<char>, pat: Seq<char>) -> Seq<char>
    decreases s.len(),
{
    if pat.len() > 0 && occurs_at(s, pat, s.len() - pat.len()) {
        trim_end_matches_spec(s.subrange(0, s.len() - pat.len()), pat)
    } else {
        s
    }
}

/// `s` with all trailing repetitions of `pat` removed.
pub fn trim_end_matches(s: &str, pat: &str) -> (r: String)
    ensures
        r@ == trim_end_matches_spec(s@, pat@),
{
    let v = chars_of(s);
    let p = chars_of(pat);
    let m = p.len();
    let mut j: usize = v.len();
    assert(v@.subrange(0, j as int) =~= v@);
    if m > 0 {
        while j >= m && matches_at(&v, &p, j - m)
            invariant
                m == p@.len() > 0,
                j <= v@.len(),
                trim_end_matches_spec(v@, p@) == trim_end_matches_spec(
                    v@.subrange(0, j as int),
                    p@,
                ),
            decreases j,
        {
            let ghost w = v@.subrange(0, j as int);
            assert(w.subrange(j - m, j as int) =~= v@.subrange(j - m, j as int));
            assert(w.subrange(0, j - m) =~= v@.subrange(0, j - m));
            j = j - m;
        }
        let ghost w = v@.subrange(0, j as int);
        if j >= m {
            assert(w.subrange(j - m, j as int) =~= v@.subrange(j - m, j as int));
        }
    }
    string_of_range(&v, 0, j)
}

/// The ASCII upper-case form of `c`: `a`..`z` become `A`..`Z`, every other
/// character stays.
pub open spec fn ascii_upper_char(c: char) -> char {
    if 'a' <= c <= 'z' {
        ((c as u32) - 32) as char
    } else {
        c
    }
}

/// `s` with each character mapped to its ASCII upper-case form.
pub open spec fn ascii_upper_spec(s: Seq<char>) -> Seq<char> {
    s.map_values(|c: char| ascii_upper_char(c))
}

/// The ASCII upper-case form of `c` (`char::to_ascii_uppercase`).
pub fn upper_char(c: char) -> (d: char)
    ensures
        d == ascii_upper_char(c),
{
    if 'a' <= c && c <= 'z' {
        let b: u8 = c as u8;
        (b - 32) as char
    } else {
        c
    }
}

/// `s` with ASCII letters in upper case (`str::to_ascii_uppercase`).
pub fn to_ascii_uppercase(s: &str) -> (r: String)
    ensures
        r@ == ascii_upper_spec(s@),
{
    let v = chars_of(s);
    let mut r = String::new();
    let mut k: usize = 0;
    while k < v.len()
        invariant
            0 <= k <= v@.len(),
            r@ == ascii_upper_spec(v@.take(k as int)),
        decreases v.len() - k,
    {
        push_char(&mut r, upper_char(v[k]));
        assert(ascii_upper_spec(v@.take(k + 1)) =~= ascii_upper_spec(v@.take(k as int)).push(
            ascii_upper_char(v@[k as int]),
        ));
        k = k + 1;
    }
    assert(v@.take(k as int) =~= v@);
    r
}

/// The fields of `s` between the non-overlapping occurrences of `sep`, found
/// from the left (`str::split` with a non-empty string pattern). With an
/// empty `sep` the whole of `s` is one field.
pub open spec fn split_spec(s: Seq<char>, sep: Seq<char>) -> Seq<Seq<char>>
    decreases s.len(),
{
    if sep.len() == 0 || s.len() == 0 {
        seq![s]
    } else if occurs_at(s, sep, 0) {
        seq![Seq::<char>::empty()] + split_spec(s.skip(sep.len() as int), sep)
    } else {
        let rest = split_spec(s.drop_first(), sep);
        rest.update(0, seq![s[0]] + rest[0])
    }
}

/// The character sequences that a sequence of strings holds.
pub open spec fn views_of(v: Seq<String>) -> Seq<Seq<char>> {
    v.map_values(|x: String| x@)
}

/// `fields` joined together with `sep` between each two of them.
pub open spec fn join_spec(fields: Seq<Seq<char>>, sep: Seq<char>) -> Seq<char>
    decreases fields.len(),
{
    if fields.len() == 0 {
        Seq::empty()
    } else if fields.len() == 1 {
        fields[0]
    } else {
        fields[0] + sep + join_spec(fields.drop_first(), sep)
    }
}

/// Splitting always yields at least one field.
pub proof fn lemma_split_nonempty(s: Seq<char>, sep: Seq<char>)
    ensures
        split_spec(s, sep).len() >= 1,
    decreases s.len(),
{
    if sep.len() == 0 || s.len() == 0 {
    } else if occurs_at(s, sep, 0) {
        lemma_split_nonempty(s.skip(sep.len() as int), sep);
    } else {
        lemma_split_nonempty(s.drop_first(), sep);
    }
}

/// The fields of `s` separated by `sep` (`str::split`), as strings.
pub fn split(s: &str, sep: &str) -> (r: Vec<String>)
    requires
        sep@.len() > 0,
    ensures
        views_of(r@) == split_spec(s@, sep@),
{
    let v = chars_of(s);
    let p = chars_of(sep);
    let n = v.len();
    let m = p.len();
    let mut done: Vec<String> = Vec::new();
    let mut cur = String::new();
    let mut i: usize = 0;
    assert(v@.skip(0) =~= v@);
    proof {
        lemma_split_nonempty(v@, p@);
        let r = split_spec(v@, p@);
        assert(seq![Seq::<char>::empty() + r[0]] + r.drop_first() =~= r);
        assert(views_of(done@) =~= Seq::<Seq<char>>::empty());
    }
    while i < n
        invariant
            n == v@.len(),
            m == p@.len() > 0,
            0 <= i <= n,
            split_spec(s@, sep@) == views_of(done@) + seq![
                cur@ + split_spec(v@.skip(i as int), p@)[0],
            ] + split_spec(v@.skip(i as int), p@).drop_first(),
        decreases n - i,
    {
        let ghost t = v@.skip(i as int);
        let ghost r = split_spec(t, p@);
        assert(t.len() > 0);
        if matches_at(&v, &p, i) {
            assert(t.subrange(0, m as int) =~= v@.subrange(i as int, i + m));
            assert(occurs_at(t, p@, 0));
            assert(t.skip(m as int) =~= v@.skip(i + m));
            proof {
                lemma_split_nonempty(v@.skip(i + m), p@);
            }
            let ghost r2 = split_spec(v@.skip(i + m), p@);
            assert(r =~= seq![Seq::<char>::empty()] + r2);
            let ghost old_done = done@;
            let ghost old_cur = cur@;
            done.push(cur);
            cur = String::new();
            i = i + m;
            assert(views_of(done@) =~= views_of(old_done).push(old_cur));
            assert(seq![cur@ + r2[0]] + r2.drop_first() =~= r2);
            assert(r.drop_first() =~= r2);
        } else {
            assert(!occurs_at(t, p@, 0)) by {
                if occurs_at(t, p@, 0) {
                    assert(t.subrange(0, m as int) =~= v@.subrange(i as int, i + m));
                }
            }
            assert(t.drop_first() =~= v@.skip(i + 1));
            proof {
                lemma_split_nonempty(v@.skip(i + 1), p@);
            }
            let ghost r1 = split_spec(v@.skip(i + 1), p@);
            assert(r == r1.update(0, seq![t[0]] + r1[0]));
            let ghost old_cur = cur@;
            push_char(&mut cur, v[i]);
            i = i + 1;
            assert(cur@ + r1[0] =~= old_cur + r[0]);
            assert(r1.drop_first() =~= r.drop_first());
        }
    }
    let ghost last = split_spec(v@.skip(i as int), p@);
    assert(v@.skip(i as int) =~= Seq::<char>::empty());
    assert(last =~= seq![Seq::<char>::empty()]);
    let ghost old_done = done@;
    let ghost old_cur = cur@;
    done.push(cur);
    assert(views_of(done@) =~= views_of(old_done).push(old_cur));
    assert(old_cur + last[0] =~= old_cur);
    assert(views_of(done@) =~= split_spec(s@, sep@));
    done
}

/// Appends the characters of `t` to `s`.
pub fn append_str(s: &mut String, t: &str)
    ensures
        final(s)@ == old(s)@ + t@,
{
    let v = chars_of(t);
    let mut k: usize = 0;
    while k < v.len()
        invariant
            0 <= k <= v@.len(),
            v@ == t@,
            s@ == old(s)@ + v@.take(k as int),
        decreases v.len() - k,
    {
        push_char(s, v[k]);
        k = k + 1;
        assert(s@ =~= old(s)@ + v@.take(k as int));
    }
    assert(v@.take(k as int) =~= v@);
}

/// Whether `a` and `b` hold the same characters.
pub fn same_text(a: &str, b: &str) -> (r: bool)
    ensures
        r == (a@ == b@),
{
    a.to_owned() == b.to_owned()
}

/// A trimmed non-empty text starts and ends with a character that is not
/// white space.
pub proof fn lemma_trim_ends(s: Seq<char>)
    ensures
        trim_spec(s).len() > 0 ==> !is_white_space_spec(trim_spec(s)[0]) && !is_white_space_spec(
            trim_spec(s).last(),
        ),
{
    lemma_trim_start_first(s);
    lemma_trim_end_prefix(trim_start_spec(s));
}

proof fn lemma_trim_start_first(s: Seq<char>)
    ensures
        trim_start_spec(s).len() > 0 ==> !is_white_space_spec(trim_start_spec(s)[0]),
    decreases s.len(),
{
    if s.len() > 0 && is_white_space_spec(s[0]) {
        lemma_trim_start_first(s.drop_first());
    }
}

proof fn lemma_trim_end_prefix(s: Seq<char>)
    ensures
        trim_end_spec(s).len() <= s.len(),
        trim_end_spec(s) == s.take(trim_end_spec(s).len() as int),
        trim_end_spec(s).len() > 0 ==> !is_white_space_spec(trim_end_spec(s).last()),
    decreases s.len(),
{
    if s.len() > 0 && is_white_space_spec(s.last()) {
        lemma_trim_end_prefix(s.drop_last());
        let t = trim_end_spec(s.drop_last());
        assert(s.drop_last().take(t.len() as int) =~= s.take(t.len() as int));
    } else {
        assert(s.take(s.len() as int) =~= s);
    }
}

/// A text whose first and last characters are not white space is its own
/// trimmed form.
pub proof fn lemma_trim_of_trimmed(s: Seq<char>)
    requires
        s.len() > 0 ==> !is_white_space_spec(s[0]) && !is_white_space_spec(s.last()),
    ensures
        trim_spec(s) == s,
{
}

/// Trimming twice gives what trimming once gives.
pub proof fn lemma_trim_idempotent(s: Seq<char>)
    ensures
        trim_spec(trim_spec(s)) == trim_spec(s),
{
    lemma_trim_ends(s);
    lemma_trim_of_trimmed(trim_spec(s));
}

proof fn lemma_join_extend_first(r: Seq<Seq<char>>, x: Seq<char>, sep: Seq<char>)
    requires
        r.len() >= 1,
    ensures
        join_spec(r.update(0, x + r[0]), sep) == x + join_spec(r, sep),
{
    let u = r.update(0, x + r[0]);
    if r.len() == 1 {
    } else {
        assert(u.drop_first() =~= r.drop_first());
        assert(u[0] + sep + join_spec(u.drop_first(), sep) =~= x + (r[0] + sep + join_spec(
            r.drop_first(),
            sep,
        )));
    }
}

/// Joining the fields of a split with the separator gives back the text.
pub proof fn lemma_split_join(s: Seq<char>, sep: Seq<char>)
    requires
        sep.len() > 0,
    ensures
        join_spec(split_spec(s, sep), sep) == s,
    decreases s.len(),
{
    if s.len() == 0 {
    } else if occurs_at(s, sep, 0) {
        let rest = s.skip(sep.len() as int);
        lemma_split_join(rest, sep);
        lemma_split_nonempty(rest, sep);
        let f = seq![Seq::<char>::empty()] + split_spec(rest, sep);
        assert(f.drop_first() =~= split_spec(rest, sep));
        assert(Seq::<char>::empty() + sep + rest =~= s);
    } else {
        lemma_split_join(s.drop_first(), sep);
        lemma_split_nonempty(s.drop_first(), sep);
        lemma_join_extend_first(split_spec(s.drop_first(), sep), seq![s[0]], sep);
        assert(seq![s[0]] + s.drop_first() =~= s);
    }
}

/// A text in which a one-character separator does not occur is a single field.
pub proof fn lemma_split_without_separator(s: Seq<char>, sep: Seq<char>)
    requires
        sep.len() == 1,
        !s.contains(sep[0]),
    ensures
        split_spec(s, sep) == seq![s],
    decreases s.len(),
{
    if s.len() > 0 {
        assert(s[0] != sep[0]);
        assert(!occurs_at(s, sep, 0)) by {
            if occurs_at(s, sep, 0) {
                assert(s.subrange(0, 1)[0] == sep[0]);
            }
        }
        assert(!s.drop_first().contains(sep[0])) by {
            if s.drop_first().contains(sep[0]) {
                let k = choose|k: int| 0 <= k < s.drop_first().len() && s.drop_first()[k] == sep[0];
                assert(s[k + 1] == sep[0]);
            }
        }
        lemma_split_without_separator(s.drop_first(), sep);
        assert(seq![s[0]] + s.drop_first() =~= s);
    }
}

/// With a one-character separator, a leading field free of it splits off.
pub proof fn lemma_split_leading_field(u: Seq<char>, sep: Seq<char>, rest: Seq<char>)
    requires
        sep.len() == 1,
        !u.contains(sep[0]),
    ensures
        split_spec(u + sep + rest, sep) == seq![u] + split_spec(rest, sep),
    decreases u.len(),
{
    let s = u + sep + rest;
    if u.len() == 0 {
        assert(s.subrange(0, 1) =~= sep);
        assert(s.skip(1) =~= rest);
        assert(u =~= Seq::<char>::empty());
    } else {
        assert(s[0] == u[0]);
        assert(u[0] != sep[0]);
        assert(!occurs_at(s, sep, 0)) by {
            if occurs_at(s, sep, 0) {
                assert(s.subrange(0, 1)[0] == sep[0]);
            }
        }
        let u1 = u.drop_first();
        assert(!u1.contains(sep[0])) by {
            if u1.contains(sep[0]) {
                let k = choose|k: int| 0 <= k < u1.len() && u1[k] == sep[0];
                assert(u[k + 1] == sep[0]);
            }
        }
        assert(s.drop_first() =~= u1 + sep + rest);
        lemma_split_leading_field(u1, sep, rest);
        assert(seq![u[0]] + u1 =~= u);
        let r1 = split_spec(s.drop_first(), sep);
        assert(r1.update(0, seq![s[0]] + r1[0]) =~= seq![u] + split_spec(rest, sep));
    }
}

/// After the trailing runs of a non-empty pattern are removed, the text no
/// longer ends with the pattern.
pub proof fn lemma_trim_end_matches_done(s: Seq<char>, pat: Seq<char>)
    requires
        pat.len() > 0,
    ensures
        !occurs_at(
            trim_end_matches_spec(s, pat),
            pat,
            trim_end_matches_spec(s, pat).len() - pat.len(),
        ),
    decreases s.len(),
{
    if occurs_at(s, pat, s.len() - pat.len()) {
        lemma_trim_end_matches_done(s.subrange(0, s.len() - pat.len()), pat);
    }
}

/// Upper-casing one character: a lower-case ASCII letter becomes the
/// upper-case letter 32 code points below it, and every other character is
/// left as it is.
pub proof fn lemma_ascii_upper_char(c: char)
    ensures
        'a' <= c <= 'z' ==> 'A' <= ascii_upper_char(c) <= 'Z' && ascii_upper_char(c) as u32 + 32
            == c as u32,
        !('a' <= c <= 'z') ==> ascii_upper_char(c) == c,
{
}

/// Upper-casing a text works character by character: the result is as long
/// as the text, each lower-case ASCII letter becomes its upper-case letter,
/// every other character stays, and no lower-case ASCII letter is left.
pub proof fn lemma_ascii_upper_text(s: Seq<char>)
    ensures
        ascii_upper_spec(s).len() == s.len(),
        forall|i: int|
            0 <= i < s.len() && 'a' <= #[trigger] s[i] <= 'z' ==> ascii_upper_spec(s)[i] as u32
                + 32 == s[i] as u32,
        forall|i: int|
            0 <= i < s.len() && !('a' <= #[trigger] s[i] <= 'z') ==> ascii_upper_spec(s)[i]
                == s[i],
        forall|i: int|
            0 <= i < s.len() ==> !('a' <= #[trigger] ascii_upper_spec(s)[i] <= 'z'),
{
    assert forall|i: int| 0 <= i < s.len() implies !('a' <= #[trigger] ascii_upper_spec(s)[i]
        <= 'z') by {
        lemma_ascii_upper_char(s[i]);
    }
}

proof fn lemma_trim_start_skip(s: Seq<char>) -> (i: int)
    ensures
        0 <= i <= s.len(),
        trim_start_spec(s) == s.skip(i),
        forall|k: int| 0 <= k < i ==> is_white_space_spec(#[trigger] s[k]),
    decreases s.len(),
{
    if s.len() > 0 && is_white_space_spec(s[0]) {
        let i1 = lemma_trim_start_skip(s.drop_first());
        assert(s.drop_first().skip(i1) =~= s.skip(i1 + 1));
        assert forall|k: int| 0 <= k < i1 + 1 implies is_white_space_spec(#[trigger] s[k]) by {
            if k > 0 {
                assert(s[k] == s.drop_first()[k - 1]);
            }
        }
        i1 + 1
    } else {
        assert(s.skip(0) =~= s);
        0
    }
}

proof fn lemma_trim_end_take(s: Seq<char>) -> (j: int)
    ensures
        0 <= j <= s.len(),
        trim_end_spec(s) == s.take(j),
        forall|k: int| j <= k < s.len() ==> is_white_space_spec(#[trigger] s[k]),
    decreases s.len(),
{
    if s.len() > 0 && is_white_space_spec(s.last()) {
        let j1 = lemma_trim_end_take(s.drop_last());
        assert(s.drop_last().take(j1) =~= s.take(j1));
        assert forall|k: int| j1 <= k < s.len() implies is_white_space_spec(#[trigger] s[k]) by {
            if k < s.len() - 1 {
                assert(s[k] == s.drop_last()[k]);
            }
        }
        j1
    } else {
        assert(s.take(s.len() as int) =~= s);
        s.len() as int
    }
}

/// Trimming removes only white space, and all of it at both ends: the
/// trimmed text is a contiguous piece `s[i..j]` of the text, every
/// character before `i` and from `j` on is white space, and a non-empty
/// result neither starts nor ends with white space.
pub proof fn lemma_trim_removes_only_white_space(s: Seq<char>)
    ensures
        exists|i: int, j: int|
            {
                &&& 0 <= i <= j <= s.len()
                &&& trim_spec(s) == s.subrange(i, j)
                &&& forall|k: int| 0 <= k < i ==> is_white_space_spec(#[trigger] s[k])
                &&& forall|k: int| j <= k < s.len() ==> is_white_space_spec(#[trigger] s[k])
            },
        trim_spec(s).len() > 0 ==> !is_white_space_spec(trim_spec(s)[0]) && !is_white_space_spec(
            trim_spec(s).last(),
        ),
{
    lemma_trim_ends(s);
    let i = lemma_trim_start_skip(s);
    let t = s.skip(i);
    let j1 = lemma_trim_end_take(t);
    let j = i + j1;
    assert(t.take(j1) =~= s.subrange(i, j));
    assert forall|k: int| j <= k < s.len() implies is_white_space_spec(#[trigger] s[k]) by {
        assert(s[k] == t[k - i]);
    }
    assert(forall|k: int| 0 <= k < i ==> is_white_space_spec(#[trigger] s[k]));
}

proof fn lemma_split_first_is_prefix(s: Seq<char>, sep: Seq<char>)
    requires
        sep.len() > 0,
    ensures
        split_spec(s, sep)[0].len() <= s.len(),
        split_spec(s, sep)[0] == s.take(split_spec(s, sep)[0].len() as int),
    decreases s.len(),
{
    lemma_split_nonempty(s, sep);
    if s.len() == 0 {
        assert(s.take(0) =~= s);
    } else if occurs_at(s, sep, 0) {
        assert(s.take(0) =~= Seq::<char>::empty());
    } else {
        let rest = split_spec(s.drop_first(), sep);
        lemma_split_first_is_prefix(s.drop_first(), sep);
        lemma_split_nonempty(s.drop_first(), sep);
        let f = seq![s[0]] + rest[0];
        assert(f =~= s.take(f.len() as int));
    }
}

/// No field of a split holds the separator anywhere.
pub proof fn lemma_split_fields_free_of_separator(s: Seq<char>, sep: Seq<char>)
    requires
        sep.len() > 0,
    ensures
        forall|i: int, pos: int|
            0 <= i < split_spec(s, sep).len() ==> !#[trigger] occurs_at(
                split_spec(s, sep)[i],
                sep,
                pos,
            ),
    decreases s.len(),
{
    let f = split_spec(s, sep);
    if s.len() == 0 {
        assert forall|i: int, pos: int| 0 <= i < f.len() implies !#[trigger] occurs_at(f[i], sep, pos) by {
            assert(f[i].len() == 0);
        }
    } else if occurs_at(s, sep, 0) {
        let rest = split_spec(s.skip(sep.len() as int), sep);
        lemma_split_fields_free_of_separator(s.skip(sep.len() as int), sep);
        assert forall|i: int, pos: int| 0 <= i < f.len() implies !#[trigger] occurs_at(f[i], sep, pos) by {
            if i == 0 {
                assert(f[0].len() == 0);
            } else {
                assert(f[i] == rest[i - 1]);
            }
        }
    } else {
        let t = s.drop_first();
        let rest = split_spec(t, sep);
        lemma_split_fields_free_of_separator(t, sep);
        lemma_split_nonempty(t, sep);
        lemma_split_first_is_prefix(t, sep);
        let f0 = seq![s[0]] + rest[0];
        assert forall|i: int, pos: int| 0 <= i < f.len() implies !#[trigger] occurs_at(f[i], sep, pos) by {
            if i == 0 {
                assert(f[0] == f0);
                if occurs_at(f0, sep, pos) {
                    if pos == 0 {
                        assert(f0 =~= s.take(f0.len() as int));
                        assert(s.subrange(0, sep.len() as int) =~= f0.subrange(0, sep.len() as int));
                    } else {
                        assert(rest[0].subrange(pos - 1, pos - 1 + sep.len()) =~= f0.subrange(
                            pos,
                            pos + sep.len(),
                        ));
                        assert(occurs_at(rest[0], sep, pos - 1));
                    }
                }
            } else {
                assert(f[i] == rest[i]);
            }
        }
    }
}

/// Each separator that a split removes is the leftmost one left: no field
/// but the last, followed by the separator, holds the separator at a
/// position before the field's end.
pub proof fn lemma_split_takes_leftmost_separator(s: Seq<char>, sep: Seq<char>)
    requires
        sep.len() > 0,
    ensures
        forall|i: int, pos: int|
            0 <= i < split_spec(s, sep).len() - 1 && 0 <= pos < split_spec(s, sep)[i].len()
                ==> !#[trigger] occurs_at(split_spec(s, sep)[i] + sep, sep, pos),
    decreases s.len(),
{
    let f = split_spec(s, sep);
    if s.len() == 0 {
    } else if occurs_at(s, sep, 0) {
        let rest = split_spec(s.skip(sep.len() as int), sep);
        lemma_split_takes_leftmost_separator(s.skip(sep.len() as int), sep);
        assert forall|i: int, pos: int|
            0 <= i < f.len() - 1 && 0 <= pos < f[i].len() implies !#[trigger] occurs_at(
            f[i] + sep,
            sep,
            pos,
        ) by {
            if i > 0 {
                assert(f[i] == rest[i - 1]);
            }
        }
    } else {
        let t = s.drop_first();
        let rest = split_spec(t, sep);
        lemma_split_takes_leftmost_separator(t, sep);
        lemma_split_nonempty(t, sep);
        assert forall|i: int, pos: int|
            0 <= i < f.len() - 1 && 0 <= pos < f[i].len() implies !#[trigger] occurs_at(
            f[i] + sep,
            sep,
            pos,
        ) by {
            if i > 0 {
                assert(f[i] == rest[i]);
            } else {
                let f0 = seq![s[0]] + rest[0];
                assert(f[0] == f0);
                lemma_split_join(t, sep);
                assert(rest.len() > 1);
                let j = join_spec(rest.drop_first(), sep);
                assert(t == rest[0] + sep + j);
                if occurs_at(f0 + sep, sep, pos) {
                    if pos == 0 {
                        assert(s =~= seq![s[0]] + t);
                        assert(s =~= f0 + sep + j);
                        assert(s.subrange(0, sep.len() as int) =~= (f0 + sep).subrange(
                            0,
                            sep.len() as int,
                        ));
                    } else {
                        assert((rest[0] + sep).subrange(pos - 1, pos - 1 + sep.len()) =~= (f0
                            + sep).subrange(pos, pos + sep.len()));
                        assert(occurs_at(rest[0] + sep, sep, pos - 1));
                    }
                }
            }
        }
    }
}

} // verus!
