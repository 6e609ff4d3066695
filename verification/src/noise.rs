//! The frequent words of news titles flagged as noise: segmentation, the
//! filter on candidate words, counting and the selection of the most frequent.
use vstd::prelude::*;

use crate::text::{all_ascii_digits, byte_len, is_all_ascii_digits, str_equal, string_views};

verus! {

#[verifier::external_type_specification]
#[verifier::external_body]
pub struct ExJieba(jieba_rs::Jieba);

/// A Chinese word segmenter with jieba's default dictionary.
pub struct Segmenter {
    jieba: jieba_rs::Jieba,
}

/// The words into which a `jieba_rs::Jieba` built by `Jieba::new` (the default
/// dictionary) cuts a text with `cut`, `hmm` choosing the HMM pass for unknown words.
pub uninterp spec fn spec_jieba_cut(text: Seq<char>, hmm: bool) -> Seq<Seq<char>>;

/// Calls jieba_rs's `Jieba::new`, which loads the default dictionary. Nothing
/// is claimed of the result.
#[verifier::external_body]
fn default_jieba() -> jieba_rs::Jieba {
    jieba_rs::Jieba::new()
}

/// Calls jieba_rs's `Jieba::cut` and copies out each token's word. Claimed:
/// the words are the named value `spec_jieba_cut` of the text and `hmm`. The
/// claim holds of segmenters built by `Jieba::new`, the only ones this crate builds.
#[verifier::external_body]
fn jieba_cut(jieba: &jieba_rs::Jieba, text: &str, hmm: bool) -> (r: Vec<String>)
    ensures
        string_views(r@) == spec_jieba_cut(text@, hmm),
{
    jieba.cut(text, hmm).into_iter().map(|t| t.word.to_string()).collect()
}

impl Segmenter {
    /// A segmenter with the default dictionary.
    pub fn new() -> Segmenter {
        Segmenter { jieba: default_jieba() }
    }

    /// The words of `text`, without the HMM pass.
    pub fn cut(&self, text: &str) -> (r: Vec<String>)
        ensures
            string_views(r@) == spec_jieba_cut(text@, false),
    {
        jieba_cut(&self.jieba, text, false)
    }
}

/// The stop words that are never counted.
pub open spec fn is_stop_word(w: Seq<char>) -> bool {
    ||| w == "的"@ ||| w == "了"@ ||| w == "在"@ ||| w == "是"@ ||| w == "我"@
    ||| w == "有"@ ||| w == "和"@ ||| w == "就"@ ||| w == "不"@ ||| w == "人"@
    ||| w == "都"@ ||| w == "一"@ ||| w == "一个"@ ||| w == "上"@ ||| w == "也"@
    ||| w == "很"@ ||| w == "到"@ ||| w == "说"@ ||| w == "要"@ ||| w == "去"@
    ||| w == "你"@ ||| w == "会"@ ||| w == "着"@ ||| w == "没有"@ ||| w == "看"@
    ||| w == "好"@ ||| w == "自己"@ ||| w == "这"@ ||| w == "那"@ ||| w == "它"@
    ||| w == "他"@ ||| w == "她"@ ||| w == "我们"@ ||| w == "你们"@ ||| w == "他们"@
    ||| w == "它们"@ ||| w == "什么"@ ||| w == "怎么"@ ||| w == "为什么"@ ||| w == "如何"@
    ||| w == "因为"@ ||| w == "所以"@ ||| w == "但是"@ ||| w == "而且"@ ||| w == "如果"@
    ||| w == "那么"@
}

/// Whether `w` is one of the stop words.
pub fn stop_word(w: &str) -> (r: bool)
    ensures
        r == is_stop_word(w@),
{
    str_equal(w, "的") || str_equal(w, "了") || str_equal(w, "在") || str_equal(w, "是")
        || str_equal(w, "我") || str_equal(w, "有") || str_equal(w, "和") || str_equal(w, "就")
        || str_equal(w, "不") || str_equal(w, "人") || str_equal(w, "都") || str_equal(w, "一")
        || str_equal(w, "一个") || str_equal(w, "上") || str_equal(w, "也") || str_equal(w, "很")
        || str_equal(w, "到") || str_equal(w, "说") || str_equal(w, "要") || str_equal(w, "去")
        || str_equal(w, "你") || str_equal(w, "会") || str_equal(w, "着") || str_equal(w, "没有")
        || str_equal(w, "看") || str_equal(w, "好") || str_equal(w, "自己") || str_equal(w, "这")
        || str_equal(w, "那") || str_equal(w, "它") || str_equal(w, "他") || str_equal(w, "她")
        || str_equal(w, "我们") || str_equal(w, "你们") || str_equal(w, "他们") || str_equal(
        w,
        "它们",
    ) || str_equal(w, "什么") || str_equal(w, "怎么") || str_equal(w, "为什么") || str_equal(
        w,
        "如何",
    ) || str_equal(w, "因为") || str_equal(w, "所以") || str_equal(w, "但是") || str_equal(
        w,
        "而且",
    ) || str_equal(w, "如果") || str_equal(w, "那么")
}

/// A word is counted when it is longer than one byte, is no stop word and is
/// not made of ASCII digits only.
pub open spec fn is_candidate_word(w: Seq<char>) -> bool {
    byte_len(w) > 1 && !is_stop_word(w) && !all_ascii_digits(w)
}

/// Whether `w` is counted.
pub fn candidate_word(w: &str) -> (r: bool)
    ensures
        r == is_candidate_word(w@),
{
    if w.len() <= 1 {
        return false;
    }
    if stop_word(w) {
        return false;
    }
    !is_all_ascii_digits(w)
}

/// The counted words of `ws`, in order.
pub open spec fn candidate_words(ws: Seq<Seq<char>>) -> Seq<Seq<char>>
    decreases ws.len(),
{
    if ws.len() == 0 {
        Seq::empty()
    } else {
        let k = candidate_words(ws.drop_last());
        if is_candidate_word(ws.last()) {
            k.push(ws.last())
        } else {
            k
        }
    }
}

/// The counted words of all titles, title by title and in order within each.
pub open spec fn noise_tokens(titles: Seq<Seq<char>>) -> Seq<Seq<char>>
    decreases titles.len(),
{
    if titles.len() == 0 {
        Seq::empty()
    } else {
        noise_tokens(titles.drop_last()) + candidate_words(spec_jieba_cut(titles.last(), false))
    }
}

/// How often `w` occurs in `s`.
pub open spec fn count_in(s: Seq<Seq<char>>, w: Seq<char>) -> nat
    decreases s.len(),
{
    if s.len() == 0 {
        0
    } else {
        count_in(s.drop_last(), w) + if s.last() == w {
            1nat
        } else {
            0nat
        }
    }
}

/// `r` is a choice of the `n` most frequent words of `tokens`: distinct words
/// of `tokens`, ordered from the most to the least frequent, `n` of them or all
/// the distinct words where there are fewer, and no word left out is more
/// frequent than a word chosen. Which of equally frequent words are chosen,
/// and in which order, is left open.
pub open spec fn is_top_selection(tokens: Seq<Seq<char>>, n: nat, r: Seq<Seq<char>>) -> bool {
    &&& r.len() <= n
    &&& r.no_duplicates()
    &&& forall|i: int| 0 <= i < r.len() ==> tokens.contains(#[trigger] r[i])
    &&& forall|i: int, j: int|
        0 <= i < j < r.len() ==> count_in(tokens, #[trigger] r[i]) >= count_in(tokens, #[trigger] r[j])
    &&& forall|w: Seq<char>, i: int|
        tokens.contains(w) && !r.contains(w) && 0 <= i < r.len() ==> #[trigger] count_in(tokens, w)
            <= count_in(tokens, #[trigger] r[i])
    &&& r.len() == n || forall|w: Seq<char>| tokens.contains(w) ==> r.contains(w)
}

proof fn lemma_count_push(s: Seq<Seq<char>>, x: Seq<char>, w: Seq<char>)
    ensures
        count_in(s.push(x), w) == count_in(s, w) + if x == w {
            1nat
        } else {
            0nat
        },
{
    assert(s.push(x).drop_last() =~= s);
}

proof fn lemma_count_le_len(s: Seq<Seq<char>>, w: Seq<char>)
    ensures
        count_in(s, w) <= s.len(),
    decreases s.len(),
{
    if s.len() > 0 {
        lemma_count_le_len(s.drop_last(), w);
    }
}

proof fn lemma_count_pos_contains(s: Seq<Seq<char>>, w: Seq<char>)
    requires
        !s.contains(w),
    ensures
        count_in(s, w) == 0,
    decreases s.len(),
{
    if s.len() > 0 {
        assert(!s.drop_last().contains(w)) by {
            if s.drop_last().contains(w) {
                let k = choose|k: int| 0 <= k < s.drop_last().len() && s.drop_last()[k] == w;
                assert(s[k] == w);
            }
        }
        lemma_count_pos_contains(s.drop_last(), w);
        assert(s.last() != w) by {
            if s.last() == w {
                assert(s[s.len() - 1] == w);
            }
        }
    }
}

proof fn lemma_candidate_words_are_candidates(ws: Seq<Seq<char>>, w: Seq<char>)
    requires
        candidate_words(ws).contains(w),
    ensures
        is_candidate_word(w),
    decreases ws.len(),
{
    if ws.len() > 0 {
        let k = candidate_words(ws.drop_last());
        if is_candidate_word(ws.last()) && w == ws.last() {
        } else {
            let c = candidate_words(ws);
            let i = choose|i: int| 0 <= i < c.len() && c[i] == w;
            if is_candidate_word(ws.last()) {
                assert(i < k.len());
                assert(k[i] == w);
            }
            assert(k.contains(w));
            lemma_candidate_words_are_candidates(ws.drop_last(), w);
        }
    }
}

proof fn lemma_noise_tokens_are_candidates(titles: Seq<Seq<char>>, w: Seq<char>)
    requires
        noise_tokens(titles).contains(w),
    ensures
        is_candidate_word(w),
    decreases titles.len(),
{
    if titles.len() > 0 {
        let a = noise_tokens(titles.drop_last());
        let b = candidate_words(spec_jieba_cut(titles.last(), false));
        let t = noise_tokens(titles);
        assert(t == a + b);
        let i = choose|i: int| 0 <= i < t.len() && t[i] == w;
        if i < a.len() {
            assert(a[i] == w);
            lemma_noise_tokens_are_candidates(titles.drop_last(), w);
        } else {
            assert(b[i - a.len()] == w);
            lemma_candidate_words_are_candidates(spec_jieba_cut(titles.last(), false), w);
        }
    }
}

/// Every noise keyword is a counted word: longer than one byte, no stop word
/// and not a number.
pub proof fn lemma_noise_keywords_are_candidates(titles: Seq<Seq<char>>, n: nat, r: Seq<Seq<char>>)
    requires
        is_top_selection(noise_tokens(titles), n, r),
    ensures
        forall|i: int| 0 <= i < r.len() ==> is_candidate_word(#[trigger] r[i]),
{
    assert forall|i: int| 0 <= i < r.len() implies is_candidate_word(#[trigger] r[i]) by {
        lemma_noise_tokens_are_candidates(titles, r[i]);
    }
}

/// The stop words, one by one: each of these words is a stop word and is
/// never counted, so it never becomes a noise keyword.
pub proof fn lemma_listed_stop_words(w: Seq<char>)
    requires
        w == "的"@
            || w == "了"@
            || w == "在"@
            || w == "是"@
            || w == "我"@
            || w == "有"@
            || w == "和"@
            || w == "就"@
            || w == "不"@
            || w == "人"@
            || w == "都"@
            || w == "一"@
            || w == "一个"@
            || w == "上"@
            || w == "也"@
            || w == "很"@
            || w == "到"@
            || w == "说"@
            || w == "要"@
            || w == "去"@
            || w == "你"@
            || w == "会"@
            || w == "着"@
            || w == "没有"@
            || w == "看"@
            || w == "好"@
            || w == "自己"@
            || w == "这"@
            || w == "那"@
            || w == "它"@
            || w == "他"@
            || w == "她"@
            || w == "我们"@
            || w == "你们"@
            || w == "他们"@
            || w == "它们"@
            || w == "什么"@
            || w == "怎么"@
            || w == "为什么"@
            || w == "如何"@
            || w == "因为"@
            || w == "所以"@
            || w == "但是"@
            || w == "而且"@
            || w == "如果"@
            || w == "那么"@,
    ensures
        is_stop_word(w),
        !is_candidate_word(w),
{
}

/// No listed stop word is ever chosen as a noise keyword.
pub proof fn lemma_noise_keywords_skip_stop_words(
    titles: Seq<Seq<char>>,
    n: nat,
    r: Seq<Seq<char>>,
    w: Seq<char>,
)
    requires
        is_top_selection(noise_tokens(titles), n, r),
        w == "的"@
            || w == "了"@
            || w == "在"@
            || w == "是"@
            || w == "我"@
            || w == "有"@
            || w == "和"@
            || w == "就"@
            || w == "不"@
            || w == "人"@
            || w == "都"@
            || w == "一"@
            || w == "一个"@
            || w == "上"@
            || w == "也"@
            || w == "很"@
            || w == "到"@
            || w == "说"@
            || w == "要"@
            || w == "去"@
            || w == "你"@
            || w == "会"@
            || w == "着"@
            || w == "没有"@
            || w == "看"@
            || w == "好"@
            || w == "自己"@
            || w == "这"@
            || w == "那"@
            || w == "它"@
            || w == "他"@
            || w == "她"@
            || w == "我们"@
            || w == "你们"@
            || w == "他们"@
            || w == "它们"@
            || w == "什么"@
            || w == "怎么"@
            || w == "为什么"@
            || w == "如何"@
            || w == "因为"@
            || w == "所以"@
            || w == "但是"@
            || w == "而且"@
            || w == "如果"@
            || w == "那么"@,
    ensures
        !r.contains(w),
{
    lemma_listed_stop_words(w);
    lemma_noise_keywords_are_candidates(titles, n, r);
    if r.contains(w) {
        let i = choose|i: int| 0 <= i < r.len() && r[i] == w;
        assert(is_candidate_word(r[i]));
    }
}

/// The counted words of all titles, in order.
pub fn collect_noise_tokens(seg: &Segmenter, titles: &Vec<String>) -> (r: Vec<String>)
    ensures
        string_views(r@) == noise_tokens(string_views(titles@)),
{
    let ghost tv = string_views(titles@);
    let mut out: Vec<String> = Vec::new();
    let mut i: usize = 0;
    assert(tv.take(0) =~= Seq::<Seq<char>>::empty());
    assert(string_views(out@) =~= Seq::<Seq<char>>::empty());
    while i < titles.len()
        invariant
            tv == string_views(titles@),
            i <= titles.len(),
            string_views(out@) == noise_tokens(tv.take(i as int)),
        decreases titles.len() - i,
    {
        let words = seg.cut(titles[i].as_str());
        let ghost wv = string_views(words@);
        let ghost before = string_views(out@);
        let mut j: usize = 0;
        assert(wv.take(0) =~= Seq::<Seq<char>>::empty());
        assert(before =~= before + candidate_words(wv.take(0)));
        while j < words.len()
            invariant
                wv == string_views(words@),
                j <= words.len(),
                string_views(out@) == before + candidate_words(wv.take(j as int)),
            decreases words.len() - j,
        {
            let w = words[j].as_str();
            assert(wv.take(j + 1).drop_last() =~= wv.take(j as int));
            assert(wv.take(j + 1).last() == w@);
            let keep = candidate_word(w);
            if keep {
                let ghost prev = string_views(out@);
                out.push(words[j].clone());
                assert(string_views(out@) =~= prev.push(w@));
            }
            j = j + 1;
        }
        proof {
            assert(wv.take(words.len() as int) =~= wv);
            assert(tv.take(i + 1).drop_last() =~= tv.take(i as int));
            assert(tv.take(i + 1).last() == titles@[i as int]@);
        }
        i = i + 1;
    }
    assert(tv.take(titles.len() as int) =~= tv);
    out
}

/// The distinct words of `tokens` with how often each occurs.
pub fn count_words(tokens: &Vec<String>) -> (r: (Vec<String>, Vec<usize>))
    ensures
        r.0.len() == r.1.len(),
        string_views(r.0@).no_duplicates(),
        forall|k: int|
            0 <= k < r.0.len() ==> r.1@[k] == count_in(string_views(tokens@), #[trigger] r.0@[k]@),
        forall|k: int|
            0 <= k < r.0.len() ==> string_views(tokens@).contains(#[trigger] r.0@[k]@),
        forall|w: Seq<char>|
            string_views(tokens@).contains(w) ==> string_views(r.0@).contains(w),
{
    let ghost tv = string_views(tokens@);
    let mut words: Vec<String> = Vec::new();
    let mut counts: Vec<usize> = Vec::new();
    let mut i: usize = 0;
    while i < tokens.len()
        invariant
            tv == string_views(tokens@),
            i <= tokens.len(),
            words.len() == counts.len(),
            string_views(words@).no_duplicates(),
            forall|k: int|
                0 <= k < words.len() ==> counts@[k] == count_in(
                    tv.take(i as int),
                    #[trigger] words@[k]@,
                ),
            forall|k: int| 0 <= k < words.len() ==> tv.take(i as int).contains(#[trigger] words@[k]@),
            forall|w: Seq<char>|
                tv.take(i as int).contains(w) ==> string_views(words@).contains(w),
        decreases tokens.len() - i,
    {
        let t = tokens[i].as_str();
        let ghost pre = tv.take(i as int);
        let ghost post = tv.take(i + 1);
        assert(post =~= pre.push(t@));
        proof {
            assert forall|w: Seq<char>| #[trigger] count_in(post, w) == count_in(pre, w) + if t@
                == w {
                1nat
            } else {
                0nat
            } by {
                lemma_count_push(pre, t@, w);
            }
        }
        let mut k: usize = 0;
        let mut found = false;
        while k < words.len()
            invariant_except_break
                !found,
            invariant
                words.len() == counts.len(),
                k <= words.len(),
                forall|m: int| 0 <= m < k ==> words@[m]@ != t@,
            ensures
                found ==> k < words.len() && words@[k as int]@ == t@,
                !found ==> forall|m: int| 0 <= m < words.len() ==> words@[m]@ != t@,
            decreases words.len() - k,
        {
            if str_equal(words[k].as_str(), t) {
                found = true;
                break;
            }
            k = k + 1;
        }
        let ghost wv0 = string_views(words@);
        if found {
            proof {
                lemma_count_le_len(pre, t@);
            }
            let c = counts[k] + 1;
            counts.set(k, c);
            proof {
                assert forall|m: int| 0 <= m < words.len() implies counts@[m] == count_in(
                    post,
                    #[trigger] words@[m]@,
                ) by {
                    if m != k {
                        assert(string_views(words@)[m] != string_views(words@)[k as int]);
                    }
                }
            }
        } else {
            let ghost old_words = string_views(words@);
            proof {
                if old_words.contains(t@) {
                    let m = choose|m: int| 0 <= m < old_words.len() && old_words[m] == t@;
                    assert(words@[m]@ == t@);
                }
                assert(!pre.contains(t@)) by {
                    if pre.contains(t@) {
                        assert(old_words.contains(t@));
                    }
                }
                lemma_count_pos_contains(pre, t@);
            }
            words.push(tokens[i].clone());
            counts.push(1);
            proof {
                assert(string_views(words@) =~= old_words.push(t@));
                assert(post.contains(t@)) by {
                    assert(post[i as int] == t@);
                }
                assert forall|m: int| 0 <= m < words.len() implies tv.take(i + 1).contains(
                    #[trigger] words@[m]@,
                ) by {
                    if m < old_words.len() {
                        assert(pre.contains(words@[m]@));
                        let q = choose|q: int| 0 <= q < pre.len() && pre[q] == words@[m]@;
                        assert(post[q] == words@[m]@);
                    }
                }
            }
        }
        proof {
            assert forall|w: Seq<char>| post.contains(w) implies string_views(words@).contains(
                w,
            ) by {
                let q = choose|q: int| 0 <= q < post.len() && post[q] == w;
                if q < i {
                    assert(pre[q] == w);
                    assert(wv0.contains(w));
                    let m = choose|m: int| 0 <= m < wv0.len() && wv0[m] == w;
                    assert(string_views(words@)[m] == w);
                } else {
                    assert(w == t@);
                    if found {
                        assert(string_views(words@)[k as int] == w);
                    } else {
                        assert(string_views(words@)[words.len() - 1] == w);
                    }
                }
            }
            assert forall|m: int| 0 <= m < words.len() implies tv.take(i + 1).contains(
                #[trigger] words@[m]@,
            ) by {
                if found || m < words.len() - 1 {
                    assert(pre.contains(words@[m]@));
                    let q = choose|q: int| 0 <= q < pre.len() && pre[q] == words@[m]@;
                    assert(post[q] == words@[m]@);
                } else {
                    assert(post[i as int] == t@);
                }
            }
        }
        i = i + 1;
    }
    assert(tv.take(tokens.len() as int) =~= tv);
    (words, counts)
}

/// The positions of the `n` largest counts, largest first: distinct
/// positions, counts non-increasing along them, no position left out with a
/// larger count than one chosen, and `n` of them or all positions where there
/// are fewer.
pub fn select_top(counts: &Vec<usize>, n: usize) -> (r: Vec<usize>)
    ensures
        r.len() <= n,
        r@.no_duplicates(),
        forall|i: int| 0 <= i < r.len() ==> #[trigger] r@[i] < counts.len(),
        forall|i: int, j: int|
            0 <= i < j < r.len() ==> counts@[#[trigger] r@[i] as int] >= counts@[#[trigger] r@[
                j
            ] as int],
        forall|k: int, i: int|
            0 <= k < counts.len() && !r@.contains(k as usize) && 0 <= i < r.len()
                ==> #[trigger] counts@[k] <= counts@[#[trigger] r@[i] as int],
        r.len() == n || forall|k: usize| k < counts.len() ==> #[trigger] r@.contains(k),
{
    let len = counts.len();
    let mut taken: Vec<bool> = Vec::new();
    let mut q: usize = 0;
    while q < len
        invariant
            q <= len,
            taken.len() == q,
            forall|k: int| 0 <= k < q ==> !taken@[k],
        decreases len - q,
    {
        taken.push(false);
        q = q + 1;
    }
    let mut out: Vec<usize> = Vec::new();
    while out.len() < n
        invariant_except_break
            out.len() <= n,
        invariant
            len == counts.len(),
            taken.len() == len,
            out.len() <= n,
            forall|k: int| 0 <= k < len ==> (taken@[k] <==> out@.contains(k as usize)),
            out@.no_duplicates(),
            forall|i: int| 0 <= i < out.len() ==> #[trigger] out@[i] < len,
            forall|i: int, j: int|
                0 <= i < j < out.len() ==> counts@[#[trigger] out@[i] as int] >= counts@[
                    #[trigger] out@[j] as int
                ],
            forall|k: int, i: int|
                0 <= k < len && !taken@[k] && 0 <= i < out.len() ==> #[trigger] counts@[k]
                    <= counts@[#[trigger] out@[i] as int],
        ensures
            out.len() == n || forall|k: int| 0 <= k < len ==> taken@[k],
        decreases n - out.len(),
    {
        let mut best: Option<usize> = None;
        let mut k: usize = 0;
        while k < len
            invariant
                len == counts.len(),
                taken.len() == len,
                k <= len,
                best is None ==> forall|j: int| 0 <= j < k ==> taken@[j],
                best matches Some(m) ==> m < k && !taken@[m as int] && forall|j: int|
                    0 <= j < k && !taken@[j] ==> counts@[j] <= counts@[m as int],
            decreases len - k,
        {
            if !taken[k] {
                match best {
                    None => {
                        best = Some(k);
                    },
                    Some(m) => {
                        if counts[k] > counts[m] {
                            best = Some(k);
                        }
                    },
                }
            }
            k = k + 1;
        }
        match best {
            None => {
                break;
            },
            Some(m) => {
                let ghost old_out = out@;
                let ghost old_taken = taken@;
                out.push(m);
                taken.set(m, true);
                proof {
                    assert forall|j: int| 0 <= j < len implies (taken@[j] <==> out@.contains(
                        j as usize,
                    )) by {
                        if j == m {
                            assert(out@[out.len() - 1] == m);
                        } else {
                            if out@.contains(j as usize) {
                                let p = choose|p: int| 0 <= p < out.len() && out@[p] == j as usize;
                                assert(p < old_out.len());
                                assert(old_out.contains(j as usize));
                            }
                            if old_out.contains(j as usize) {
                                let p = choose|p: int|
                                    0 <= p < old_out.len() && old_out[p] == j as usize;
                                assert(out@[p] == j as usize);
                            }
                        }
                    }
                    assert(!old_out.contains(m));
                    assert(out@.no_duplicates()) by {
                        assert forall|a: int, b: int|
                            0 <= a < b < out.len() implies out@[a] != out@[b] by {
                            if b == out.len() - 1 {
                                assert(old_out[a] == out@[a]);
                            } else {
                                assert(old_out[a] != old_out[b]);
                            }
                        }
                    }
                    assert forall|i: int, j: int| 0 <= i < j < out.len() implies counts@[
                        #[trigger] out@[i] as int
                    ] >= counts@[#[trigger] out@[j] as int] by {
                        if j == out.len() - 1 {
                            assert(!old_taken[m as int]);
                            assert(out@[i] == old_out[i]);
                        }
                    }
                    assert forall|k2: int, i: int|
                        0 <= k2 < len && !taken@[k2] && 0 <= i < out.len() implies #[trigger] counts@[
                        k2] <= counts@[#[trigger] out@[i] as int] by {
                        assert(k2 != m);
                        assert(!old_taken[k2]);
                        if i == out.len() - 1 {
                        } else {
                            assert(out@[i] == old_out[i]);
                        }
                    }
                }
            },
        }
    }
    proof {
        if out.len() != n {
            assert forall|k: usize| k < len implies #[trigger] out@.contains(k) by {
                assert(taken@[k as int]);
            }
        }
        assert forall|k: int, i: int|
            0 <= k < counts.len() && !out@.contains(k as usize) && 0 <= i < out.len()
                implies #[trigger] counts@[k] <= counts@[#[trigger] out@[i] as int] by {
            assert(!taken@[k]);
        }
    }
    out
}

/// The `top_n` most frequent counted words of the titles, most frequent first:
/// each title is cut into words by the default-dictionary segmenter, words of
/// one byte, stop words and ASCII numbers are dropped, and the rest counted.
pub fn noise_keywords(titles: &Vec<String>, top_n: usize) -> (r: Vec<String>)
    ensures
        is_top_selection(noise_tokens(string_views(titles@)), top_n as nat, string_views(r@)),
{
    if titles.len() == 0 {
        assert(string_views(titles@) =~= Seq::<Seq<char>>::empty());
        let r: Vec<String> = Vec::new();
        assert(string_views(r@) =~= Seq::<Seq<char>>::empty());
        return r;
    }
    let seg = Segmenter::new();
    let tokens = collect_noise_tokens(&seg, titles);
    let (words, counts) = count_words(&tokens);
    let top = select_top(&counts, top_n);
    let mut out: Vec<String> = Vec::new();
    let mut i: usize = 0;
    while i < top.len()
        invariant
            i <= top.len(),
            out.len() == i,
            words.len() == counts.len(),
            forall|j: int| 0 <= j < top.len() ==> #[trigger] top@[j] < counts.len(),
            forall|j: int| 0 <= j < i ==> (#[trigger] out@[j])@ == words@[top@[j] as int]@,
        decreases top.len() - i,
    {
        out.push(words[top[i]].clone());
        i = i + 1;
    }
    proof {
        let tv = noise_tokens(string_views(titles@));
        let wv = string_views(words@);
        let rv = string_views(out@);
        assert(string_views(tokens@) == tv);
        assert forall|j: int| 0 <= j < rv.len() implies rv[j] == wv[top@[j] as int] by {}
        assert(rv.no_duplicates()) by {
            assert forall|a: int, b: int| 0 <= a < b < rv.len() implies rv[a] != rv[b] by {
                assert(top@[a] != top@[b]);
                assert(wv[top@[a] as int] != wv[top@[b] as int]);
            }
        }
        assert forall|j: int| 0 <= j < rv.len() implies tv.contains(#[trigger] rv[j]) by {
            assert(rv[j] == words@[top@[j] as int]@);
        }
        assert forall|a: int, b: int| 0 <= a < b < rv.len() implies count_in(tv, #[trigger] rv[a])
            >= count_in(tv, #[trigger] rv[b]) by {
            assert(counts@[top@[a] as int] >= counts@[top@[b] as int]);
            assert(rv[a] == words@[top@[a] as int]@);
            assert(rv[b] == words@[top@[b] as int]@);
        }
        assert forall|w: Seq<char>, j: int|
            tv.contains(w) && !rv.contains(w) && 0 <= j < rv.len() implies #[trigger] count_in(
            tv,
            w,
        ) <= count_in(tv, #[trigger] rv[j]) by {
            assert(wv.contains(w));
            let k = choose|k: int| 0 <= k < wv.len() && wv[k] == w;
            assert(words@[k]@ == w);
            if top@.contains(k as usize) {
                let p = choose|p: int| 0 <= p < top.len() && top@[p] == k as usize;
                assert(rv[p] == w);
            }
            assert(counts@[k] <= counts@[top@[j] as int]);
            assert(rv[j] == words@[top@[j] as int]@);
        }
        if rv.len() != top_n {
            assert forall|w: Seq<char>| tv.contains(w) implies rv.contains(w) by {
                assert(wv.contains(w));
                let k = choose|k: int| 0 <= k < wv.len() && wv[k] == w;
                assert(top@.contains(k as usize));
                let p = choose|p: int| 0 <= p < top.len() && top@[p] == k as usize;
                assert(rv[p] == w);
            }
        }
    }
    out
}

} // verus!
