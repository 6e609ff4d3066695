//! Character-level string operations with their specifications: substring
//! search, whitespace trimming, splitting at a separator and replacement.
use vstd::prelude::*;
use vstd::utf8::encode_utf8;

verus! {

/// The characters of each string, in order.
pub open spec fn string_views(v: Seq<String>) -> Seq<Seq<char>> {
    v.map_values(|s: String| s@)
}

/// The characters of an optional string.
pub open spec fn opt_view(o: Option<String>) -> Option<Seq<char>> {
    match o {
        Some(s) => Some(s@),
        None => None,
    }
}

/// The length in bytes of the UTF-8 encoding of `s`, as `str::len` reports it.
pub open spec fn byte_len(s: Seq<char>) -> usize {
    encode_utf8(s).len() as usize
}

/// `needle` occurs in `hay` starting at index `i`.
pub open spec fn occurs_at(hay: Seq<char>, needle: Seq<char>, i: int) -> bool {
    &&& 0 <= i
    &&& i + needle.len() <= hay.len()
    &&& hay.subrange(i, i + needle.len()) == needle
}

/// `needle` is a substring of `hay` (the empty string is a substring of every string).
pub open spec fn contains_seq(hay: Seq<char>, needle: Seq<char>) -> bool {
    exists|i: int| occurs_at(hay, needle, i)
}

/// Unicode `White_Space`, the set that `char::is_whitespace` tests.
pub open spec fn is_white_space(c: char) -> bool {
    let u = c as u32;
    ||| 0x09 <= u <= 0x0d
    ||| u == 0x20
    ||| u == 0x85
    ||| u == 0xa0
    ||| u == 0x1680
    ||| 0x2000 <= u <= 0x200a
    ||| u == 0x2028
    ||| u == 0x2029
    ||| u == 0x202f
    ||| u == 0x205f
    ||| u == 0x3000
}

/// `s` without its leading whitespace.
pub open spec fn trim_start_seq(s: Seq<char>) -> Seq<char>
    decreases s.len(),
{
    if s.len() > 0 && is_white_space(s[0]) {
        trim_start_seq(s.drop_first())
    } else {
        s
    }
}

/// `s` without its trailing whitespace.
pub open spec fn trim_end_seq(s: Seq<char>) -> Seq<char>
    decreases s.len(),
{
    if s.len() > 0 && is_white_space(s.last()) {
        trim_end_seq(s.drop_last())
    } else {
        s
    }
}

/// `s` without leading and trailing whitespace, as `str::trim` gives it.
pub open spec fn trim_seq(s: Seq<char>) -> Seq<char> {
    trim_end_seq(trim_start_seq(s))
}

/// The index of the first `c` in `s`, or -1 where there is none.
pub open spec fn index_of_char(s: Seq<char>, c: char) -> int
    decreases s.len(),
{
    if s.len() == 0 {
        -1
    } else if s[0] == c {
        0
    } else {
        let r = index_of_char(s.drop_first(), c);
        if r < 0 {
            -1
        } else {
            r + 1
        }
    }
}

/// The pieces of `s` between occurrences of `sep`, as `str::split` with a
/// `char` pattern gives them: one more piece than there are separators.
pub open spec fn split_char(s: Seq<char>, sep: char) -> Seq<Seq<char>>
    decreases s.len(),
{
    let k = index_of_char(s, sep);
    if k < 0 || k >= s.len() {
        seq![s]
    } else {
        seq![s.take(k)] + split_char(s.skip(k + 1), sep)
    }
}

/// `to` before every character of `s` and at its end: what `str::replace`
/// gives for an empty pattern, which matches at every character boundary.
pub open spec fn insert_everywhere(s: Seq<char>, to: Seq<char>) -> Seq<char>
    decreases s.len(),
{
    if s.len() == 0 {
        to
    } else {
        to + seq![s[0]] + insert_everywhere(s.drop_first(), to)
    }
}

/// `s` with every non-overlapping occurrence of `from` (scanning from the
/// left) replaced by `to`, as `str::replace` gives it; an empty `from`
/// matches at every character boundary.
pub open spec fn replace_seq(s: Seq<char>, from: Seq<char>, to: Seq<char>) -> Seq<char>
    decreases s.len(),
{
    if from.len() == 0 {
        insert_everywhere(s, to)
    } else if s.len() < from.len() {
        s
    } else if s.take(from.len() as int) == from {
        to + replace_seq(s.skip(from.len() as int), from, to)
    } else {
        seq![s[0]] + replace_seq(s.drop_first(), from, to)
    }
}

/// Every character of `s` is an ASCII digit.
pub open spec fn all_ascii_digits(s: Seq<char>) -> bool {
    forall|i: int| 0 <= i < s.len() ==> '0' <= #[trigger] s[i] <= '9'
}

/// The characters of `s`, in order.
pub fn chars_of(s: &str) -> (out: Vec<char>)
    ensures
        out@ == s@,
{
    broadcast use vstd::string::group_string_axioms;

    let mut out: Vec<char> = Vec::new();
    for c in it: s.chars()
        invariant
            out@ == it.seq().take(it.index() as int),
    {
        out.push(c);
    }
    out
}

/// Whether two strings hold the same characters.
pub fn str_equal(a: &str, b: &str) -> (r: bool)
    ensures
        r == (a@ == b@),
{
    let x = chars_of(a);
    let y = chars_of(b);
    if x.len() != y.len() {
        return false;
    }
    let mut i: usize = 0;
    while i < x.len()
        invariant
            x@ == a@,
            y@ == b@,
            x.len() == y.len(),
            i <= x.len(),
            forall|j: int| 0 <= j < i ==> x@[j] == y@[j],
        decreases x.len() - i,
    {
        if x[i] != y[i] {
            assert(a@[i as int] != b@[i as int]);
            return false;
        }
        i = i + 1;
    }
    assert(a@ =~= b@);
    true
}

/// Whether `needle` occurs in `hay` at index `i`.
fn occurs_at_exec(hay: &Vec<char>, needle: &Vec<char>, i: usize) -> (r: bool)
    requires
        i + needle.len() <= hay.len(),
    ensures
        r == occurs_at(hay@, needle@, i as int),
{
    let mut j: usize = 0;
    while j < needle.len()
        invariant
            i + needle.len() <= hay.len(),
            j <= needle.len(),
            forall|k: int| 0 <= k < j ==> hay@[i + k] == needle@[k],
        decreases needle.len() - j,
    {
        if hay[i + j] != needle[j] {
            assert(hay@.subrange(i as int, i + needle.len())[j as int] != needle@[j as int]);
            return false;
        }
        j = j + 1;
    }
    assert(hay@.subrange(i as int, i + needle.len()) =~= needle@);
    true
}

/// Whether `needle` occurs in `hay`, over character sequences.
pub fn contains_chars(hay: &Vec<char>, needle: &Vec<char>) -> (r: bool)
    ensures
        r == contains_seq(hay@, needle@),
{
    if needle.len() > hay.len() {
        return false;
    }
    let last = hay.len() - needle.len();
    let mut i: usize = 0;
    loop
        invariant
            last == hay.len() - needle.len(),
            needle.len() <= hay.len(),
            i <= last,
            forall|k: int| 0 <= k < i ==> !occurs_at(hay@, needle@, k),
        ensures
            forall|k: int| 0 <= k <= last ==> !occurs_at(hay@, needle@, k),
        decreases last - i,
    {
        if occurs_at_exec(hay, needle, i) {
            return true;
        }
        if i == last {
            break;
        }
        i = i + 1;
    }
    assert forall|k: int| !occurs_at(hay@, needle@, k) by {
        if 0 <= k && k + needle.len() <= hay.len() {
            assert(k <= last);
        }
    }
    false
}

/// Whether `needle` is a substring of `hay`, as `str::contains` answers.
pub fn contains_str(hay: &str, needle: &str) -> (r: bool)
    ensures
        r == contains_seq(hay@, needle@),
{
    let h = chars_of(hay);
    let n = chars_of(needle);
    contains_chars(&h, &n)
}

/// Whether `c` is whitespace, as `char::is_whitespace` answers.
pub fn is_white_space_char(c: char) -> (r: bool)
    ensures
        r == is_white_space(c),
{
    let u = c as u32;
    (0x09 <= u && u <= 0x0d) || u == 0x20 || u == 0x85 || u == 0xa0 || u == 0x1680 || (0x2000
        <= u && u <= 0x200a) || u == 0x2028 || u == 0x2029 || u == 0x202f || u == 0x205f || u
        == 0x3000
}

proof fn lemma_trim_start_step(s: Seq<char>, a: int)
    requires
        0 <= a < s.len(),
        is_white_space(s[a]),
    ensures
        trim_start_seq(s.subrange(a, s.len() as int)) == trim_start_seq(
            s.subrange(a + 1, s.len() as int),
        ),
{
    assert(s.subrange(a, s.len() as int).drop_first() =~= s.subrange(a + 1, s.len() as int));
}

proof fn lemma_trim_end_step(s: Seq<char>, a: int, b: int)
    requires
        0 <= a < b <= s.len(),
        is_white_space(s[b - 1]),
    ensures
        trim_end_seq(s.subrange(a, b)) == trim_end_seq(s.subrange(a, b - 1)),
{
    assert(s.subrange(a, b).drop_last() =~= s.subrange(a, b - 1));
}

/// The bounds `(a, b)` of `s` without leading and trailing whitespace.
pub fn trim_bounds(s: &Vec<char>) -> (r: (usize, usize))
    ensures
        r.0 <= r.1 <= s.len(),
        s@.subrange(r.0 as int, r.1 as int) == trim_seq(s@),
{
    let n = s.len();
    let mut a: usize = 0;
    assert(s@.subrange(0, n as int) =~= s@);
    while a < n && is_white_space_char(s[a])
        invariant
            n == s.len(),
            a <= n,
            trim_start_seq(s@) == trim_start_seq(s@.subrange(a as int, n as int)),
        decreases n - a,
    {
        proof {
            lemma_trim_start_step(s@, a as int);
        }
        a = a + 1;
    }
    proof {
        if a == n {
            assert(s@.subrange(a as int, n as int) =~= Seq::<char>::empty());
        }
    }
    assert(trim_start_seq(s@) == s@.subrange(a as int, n as int));
    let mut b: usize = n;
    while b > a && is_white_space_char(s[b - 1])
        invariant
            n == s.len(),
            a <= b <= n,
            trim_start_seq(s@) == s@.subrange(a as int, n as int),
            trim_seq(s@) == trim_end_seq(s@.subrange(a as int, b as int)),
        decreases b - a,
    {
        proof {
            lemma_trim_end_step(s@, a as int, b as int);
        }
        b = b - 1;
    }
    proof {
        if b > a {
            assert(s@.subrange(a as int, b as int).last() == s@[b - 1]);
        }
    }
    (a, b)
}

/// `s` without leading and trailing whitespace, as `str::trim` gives it.
pub fn trim_str(s: &str) -> (r: &str)
    ensures
        r@ == trim_seq(s@),
{
    let v = chars_of(s);
    let (a, b) = trim_bounds(&v);
    s.substring_char(a, b)
}

proof fn lemma_replace_unfold(s: Seq<char>, from: Seq<char>, to: Seq<char>, i: int)
    requires
        from.len() > 0,
        0 <= i < s.len(),
    ensures
        ({
            let rest = s.subrange(i, s.len() as int);
            if i + from.len() > s.len() {
                replace_seq(rest, from, to) == rest
            } else if occurs_at(s, from, i) {
                replace_seq(rest, from, to) == to + replace_seq(
                    s.subrange(i + from.len(), s.len() as int),
                    from,
                    to,
                )
            } else {
                replace_seq(rest, from, to) == seq![s[i]] + replace_seq(
                    s.subrange(i + 1, s.len() as int),
                    from,
                    to,
                )
            }
        }),
{
    let rest = s.subrange(i, s.len() as int);
    if i + from.len() <= s.len() {
        assert(rest.take(from.len() as int) =~= s.subrange(i, i + from.len()));
        assert(rest.skip(from.len() as int) =~= s.subrange(i + from.len(), s.len() as int));
    }
    assert(rest.drop_first() =~= s.subrange(i + 1, s.len() as int));
}

proof fn lemma_insert_everywhere_step(s: Seq<char>, to: Seq<char>, i: int)
    requires
        0 <= i < s.len(),
    ensures
        insert_everywhere(s.subrange(i, s.len() as int), to) == to + seq![s[i]]
            + insert_everywhere(s.subrange(i + 1, s.len() as int), to),
{
    assert(s.subrange(i, s.len() as int).drop_first() =~= s.subrange(i + 1, s.len() as int));
}

/// `s` with `to` before every character and at the end.
fn insert_everywhere_str(s: &str, to: &str) -> (r: String)
    ensures
        r@ == insert_everywhere(s@, to@),
{
    let v = chars_of(s);
    let n = v.len();
    let mut out = String::new();
    let mut i: usize = 0;
    assert(s@.subrange(0, n as int) =~= s@);
    while i < n
        invariant
            v@ == s@,
            n == v.len(),
            i <= n,
            insert_everywhere(s@, to@) == out@ + insert_everywhere(
                s@.subrange(i as int, n as int),
                to@,
            ),
        decreases n - i,
    {
        proof {
            lemma_insert_everywhere_step(s@, to@, i as int);
        }
        out.append(to);
        let piece = s.substring_char(i, i + 1);
        assert(piece@ =~= seq![s@[i as int]]);
        out.append(piece);
        i = i + 1;
    }
    assert(s@.subrange(n as int, n as int) =~= Seq::<char>::empty());
    out.append(to);
    out
}

/// `s` with every non-overlapping occurrence of `from` replaced by `to`, as
/// `str::replace` gives it; an empty `from` puts `to` at every character
/// boundary.
pub fn replace_str(s: &str, from: &str, to: &str) -> (r: String)
    ensures
        r@ == replace_seq(s@, from@, to@),
{
    let v = chars_of(s);
    let f = chars_of(from);
    if f.len() == 0 {
        return insert_everywhere_str(s, to);
    }
    let n = v.len();
    let mut out = String::new();
    let mut run_start: usize = 0;
    let mut i: usize = 0;
    assert(s@.subrange(0, n as int) =~= s@);
    assert(s@.subrange(0, 0) =~= Seq::<char>::empty());
    while i < n
        invariant
            v@ == s@,
            f@ == from@,
            n == v.len(),
            from@.len() > 0,
            run_start <= i <= n,
            replace_seq(s@, from@, to@) == out@ + s@.subrange(run_start as int, i as int)
                + replace_seq(s@.subrange(i as int, n as int), from@, to@),
        decreases n - i,
    {
        proof {
            lemma_replace_unfold(s@, from@, to@, i as int);
        }
        if f.len() <= n - i && occurs_at_exec(&v, &f, i) {
            let piece = s.substring_char(run_start, i);
            out.append(piece);
            out.append(to);
            i = i + f.len();
            run_start = i;
            assert(s@.subrange(run_start as int, i as int) =~= Seq::<char>::empty());
        } else {
            proof {
                let r = s@.subrange(run_start as int, i as int);
                assert(s@.subrange(run_start as int, i + 1) =~= r.push(s@[i as int]));
                if i + from@.len() > n {
                    assert(s@.subrange(i as int, n as int) =~= seq![s@[i as int]] + s@.subrange(
                        i + 1,
                        n as int,
                    ));
                    assert(replace_seq(s@.subrange(i + 1, n as int), from@, to@) == s@.subrange(
                        i + 1,
                        n as int,
                    ));
                }
            }
            i = i + 1;
        }
    }
    let piece = s.substring_char(run_start, n);
    out.append(piece);
    assert(s@.subrange(n as int, n as int) =~= Seq::<char>::empty());
    out
}

proof fn lemma_index_of_char_found(t: Seq<char>, c: char, k: int)
    requires
        0 <= k < t.len(),
        t[k] == c,
        forall|j: int| 0 <= j < k ==> t[j] != c,
    ensures
        index_of_char(t, c) == k,
    decreases k,
{
    if k > 0 {
        lemma_index_of_char_found(t.drop_first(), c, k - 1);
    }
}

proof fn lemma_index_of_char_absent(t: Seq<char>, c: char)
    requires
        forall|j: int| 0 <= j < t.len() ==> t[j] != c,
    ensures
        index_of_char(t, c) == -1,
    decreases t.len(),
{
    if t.len() > 0 {
        lemma_index_of_char_absent(t.drop_first(), c);
    }
}

/// The pieces of `s` between occurrences of `sep`, as `str::split` gives them.
pub fn split_str(s: &str, sep: char) -> (r: Vec<&str>)
    ensures
        r.len() == split_char(s@, sep).len(),
        forall|i: int| 0 <= i < r.len() ==> (#[trigger] r@[i])@ == split_char(s@, sep)[i],
{
    let v = chars_of(s);
    let n = v.len();
    let mut out: Vec<&str> = Vec::new();
    let ghost mut done: Seq<Seq<char>> = Seq::empty();
    let mut start: usize = 0;
    let mut i: usize = 0;
    assert(s@.subrange(0, n as int) =~= s@);
    while i < n
        invariant
            v@ == s@,
            n == v.len(),
            start <= i <= n,
            out.len() == done.len(),
            forall|j: int| 0 <= j < out.len() ==> (#[trigger] out@[j])@ == done[j],
            forall|j: int| start <= j < i ==> v@[j] != sep,
            split_char(s@, sep) == done + split_char(s@.subrange(start as int, n as int), sep),
        decreases n - i,
    {
        if v[i] == sep {
            let piece = s.substring_char(start, i);
            proof {
                let t = s@.subrange(start as int, n as int);
                lemma_index_of_char_found(t, sep, i - start);
                assert(t.take(i - start) =~= s@.subrange(start as int, i as int));
                assert(t.skip(i - start + 1) =~= s@.subrange(i + 1, n as int));
                assert(split_char(t, sep) == seq![s@.subrange(start as int, i as int)]
                    + split_char(s@.subrange(i + 1, n as int), sep));
                done = done.push(s@.subrange(start as int, i as int));
                assert(split_char(s@, sep) =~= done + split_char(
                    s@.subrange(i + 1, n as int),
                    sep,
                ));
            }
            out.push(piece);
            start = i + 1;
        }
        i = i + 1;
    }
    let piece = s.substring_char(start, n);
    proof {
        let t = s@.subrange(start as int, n as int);
        lemma_index_of_char_absent(t, sep);
        assert(split_char(t, sep) == seq![t]);
        done = done.push(t);
    }
    out.push(piece);
    out
}

/// Whether every character of `s` is an ASCII digit.
pub fn is_all_ascii_digits(s: &str) -> (r: bool)
    ensures
        r == all_ascii_digits(s@),
{
    let v = chars_of(s);
    let mut i: usize = 0;
    while i < v.len()
        invariant
            v@ == s@,
            i <= v.len(),
            forall|j: int| 0 <= j < i ==> '0' <= #[trigger] v@[j] <= '9',
        decreases v.len() - i,
    {
        let c = v[i];
        if !('0' <= c && c <= '9') {
            return false;
        }
        i = i + 1;
    }
    true
}

} // verus!
