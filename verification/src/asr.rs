//! Cleanup of transcripts returned by the local faster-whisper server.
use vstd::prelude::*;
use vstd::string::StringExecFns;
use crate::text::{chars_of, is_whitespace, is_ws, lead_ws, lemma_lead_ws_bound, lemma_lead_ws_from, push_char};
use vstd::string::StrSliceExecFns;

verus! {

/// `s` with every occurrence of `pat` removed, matching left to right
/// without overlap (what `str::replace(pat, "")` returns).
pub open spec fn remove_all(s: Seq<char>, pat: Seq<char>) -> Seq<char>
    decreases s.len(),
{
    if pat.len() == 0 || s.len() < pat.len() {
        s
    } else if s.take(pat.len() as int) == pat {
        remove_all(s.skip(pat.len() as int), pat)
    } else {
        seq![s[0]] + remove_all(s.drop_first(), pat)
    }
}

/// Number of leading non-whitespace characters.
pub open spec fn lead_word(s: Seq<char>) -> nat
    decreases s.len(),
{
    if s.len() > 0 && !is_ws(s[0]) {
        1 + lead_word(s.drop_first())
    } else {
        0
    }
}

/// The maximal runs of non-whitespace characters of `s`, in order (what
/// `str::split_whitespace` yields).
pub open spec fn words(s: Seq<char>) -> Seq<Seq<char>>
    decreases s.len(),
{
    let t = s.skip(lead_ws(s) as int);
    if lead_ws(s) >= s.len() {
        Seq::empty()
    } else {
        proof {
            lemma_lead_ws_bound(s);
            lemma_lead_word_bound(t);
            assert(t[0] == s[lead_ws(s) as int]);
        }
        seq![t.take(lead_word(t) as int)] + words(t.skip(lead_word(t) as int))
    }
}

/// The words joined with single spaces.
pub open spec fn join_words(ws: Seq<Seq<char>>) -> Seq<char>
    decreases ws.len(),
{
    if ws.len() == 0 {
        Seq::empty()
    } else if ws.len() == 1 {
        ws[0]
    } else {
        join_words(ws.drop_last()) + seq![' '] + ws.last()
    }
}

/// The whisper tags that mark non-speech; they are dropped from transcripts.
pub open spec fn strip_special_tokens(s: Seq<char>) -> Seq<char> {
    let s = remove_all(s, "[BLANK_AUDIO]"@);
    let s = remove_all(s, "[NOISE]"@);
    let s = remove_all(s, "[MUSIC]"@);
    let s = remove_all(s, "[SPEECH]"@);
    let s = remove_all(s, "[UNKNOWN]"@);
    let s = remove_all(s, "[LAUGHTER]"@);
    let s = remove_all(s, "[APPLAUSE]"@);
    let s = remove_all(s, "[COUGH]"@);
    let s = remove_all(s, "[THROAT_CLEARING]"@);
    remove_all(s, "[BREATH]"@)
}

/// A cleaned transcript: special tags removed, then the remaining words
/// joined by single spaces.
pub open spec fn spec_clean_text(text: Seq<char>) -> Seq<char> {
    join_words(words(strip_special_tokens(text)))
}

pub proof fn lemma_lead_word_bound(s: Seq<char>)
    ensures
        lead_word(s) <= s.len(),
        forall|i: int| 0 <= i < lead_word(s) ==> !is_ws(#[trigger] s[i]),
        lead_word(s) < s.len() ==> is_ws(s[lead_word(s) as int]),
    decreases s.len(),
{
    if s.len() > 0 && !is_ws(s[0]) {
        lemma_lead_word_bound(s.drop_first());
        assert forall|i: int| 0 <= i < lead_word(s) implies !is_ws(#[trigger] s[i]) by {
            if i > 0 {
                assert(s[i] == s.drop_first()[i - 1]);
            }
        }
        if lead_word(s) < s.len() {
            assert(s[lead_word(s) as int] == s.drop_first()[lead_word(s.drop_first()) as int]);
        }
    }
}

proof fn lemma_lead_word_from(s: Seq<char>, k: int)
    requires
        0 <= k <= s.len(),
        forall|i: int| 0 <= i < k ==> !is_ws(#[trigger] s[i]),
        k < s.len() ==> is_ws(s[k]),
    ensures
        lead_word(s) == k,
    decreases s.len(),
{
    if k > 0 {
        assert(!is_ws(s[0]));
        let t = s.drop_first();
        assert forall|i: int| 0 <= i < k - 1 implies !is_ws(#[trigger] t[i]) by {
            assert(t[i] == s[i + 1]);
        }
        if k - 1 < t.len() {
            assert(t[k - 1] == s[k]);
        }
        lemma_lead_word_from(t, k - 1);
    } else {
        if s.len() > 0 {
            assert(is_ws(s[0]));
        }
    }
}

/// Single-spaced text: every whitespace character is a plain space with a
/// non-whitespace character on each side (so none at either end).
pub open spec fn single_spaced(s: Seq<char>) -> bool {
    forall|i: int|
        0 <= i < s.len() && is_ws(#[trigger] s[i]) ==> {
            &&& s[i] == ' '
            &&& 0 < i < s.len() - 1
            &&& !is_ws(s[i - 1])
            &&& !is_ws(s[i + 1])
        }
}

/// A word: non-empty, without whitespace.
pub open spec fn is_word(w: Seq<char>) -> bool {
    w.len() > 0 && forall|j: int| 0 <= j < w.len() ==> !is_ws(#[trigger] w[j])
}

proof fn lemma_words_are_words(s: Seq<char>)
    ensures
        forall|k: int| 0 <= k < words(s).len() ==> is_word(#[trigger] words(s)[k]),
    decreases s.len(),
{
    lemma_lead_ws_bound(s);
    if lead_ws(s) < s.len() {
        let t = s.skip(lead_ws(s) as int);
        assert(t[0] == s[lead_ws(s) as int]);
        lemma_lead_word_bound(t);
        let w = t.take(lead_word(t) as int);
        let rest = t.skip(lead_word(t) as int);
        lemma_words_are_words(rest);
        assert(words(s) == seq![w] + words(rest));
        assert(lead_word(t) > 0);
        assert(is_word(w)) by {
            assert forall|j: int| 0 <= j < w.len() implies !is_ws(#[trigger] w[j]) by {
                assert(w[j] == t[j]);
            }
        }
        assert forall|k: int| 0 <= k < words(s).len() implies is_word(#[trigger] words(s)[k]) by {
            if k > 0 {
                assert(words(s)[k] == words(rest)[k - 1]);
            }
        }
    }
}

proof fn lemma_join_single_spaced(ws: Seq<Seq<char>>)
    requires
        forall|k: int| 0 <= k < ws.len() ==> is_word(#[trigger] ws[k]),
    ensures
        single_spaced(join_words(ws)),
        ws.len() > 0 ==> join_words(ws).len() > 0 && !is_ws(join_words(ws).last()),
    decreases ws.len(),
{
    if ws.len() == 1 {
        assert(is_word(ws[0]));
        let w = ws[0];
        assert(join_words(ws) == w);
        assert(w[w.len() - 1] == w.last());
    } else if ws.len() > 1 {
        let init = ws.drop_last();
        assert forall|k: int| 0 <= k < init.len() implies is_word(#[trigger] init[k]) by {
            assert(init[k] == ws[k]);
        }
        lemma_join_single_spaced(init);
        let p = join_words(init);
        let w = ws.last();
        assert(is_word(ws[ws.len() - 1]));
        let j = p + seq![' '] + w;
        assert(join_words(ws) == j);
        assert forall|i: int| 0 <= i < j.len() && is_ws(#[trigger] j[i]) implies {
            &&& j[i] == ' '
            &&& 0 < i < j.len() - 1
            &&& !is_ws(j[i - 1])
            &&& !is_ws(j[i + 1])
        } by {
            if i < p.len() {
                assert(j[i] == p[i]);
                assert(is_ws(p[i]));
                assert(i < p.len() - 1) by {
                    assert(p[p.len() - 1] == p.last());
                }
                assert(j[i - 1] == p[i - 1]);
                assert(j[i + 1] == p[i + 1]);
            } else if i == p.len() {
                assert(j[i - 1] == p[p.len() - 1]);
                assert(p[p.len() - 1] == p.last());
                assert(j[i + 1] == w[0]);
            } else {
                assert(j[i] == w[i - p.len() - 1]);
            }
        }
        assert(j.last() == w[w.len() - 1]);
    }
}

/// Collapsing whitespace gives single-spaced text.
pub proof fn lemma_collapse_single_spaced(s: Seq<char>)
    ensures
        single_spaced(join_words(words(s))),
{
    lemma_words_are_words(s);
    lemma_join_single_spaced(words(s));
}

/// `s` with `pat` removed everywhere (`str::replace(pat, "")`).
pub fn remove_all_str(s: &str, pat: &str) -> (r: String)
    ensures
        r@ == remove_all(s@, pat@),
{
    let cs = chars_of(s);
    let ps = chars_of(pat);
    let n = cs.len();
    let m = ps.len();
    if m == 0 {
        return String::from_str(s);
    }
    let mut out = String::new();
    let mut i: usize = 0;
    assert(s@.skip(0) =~= s@);
    while i < n
        invariant
            cs@ == s@,
            ps@ == pat@,
            n == cs@.len(),
            m == ps@.len(),
            m > 0,
            i <= n,
            out@ + remove_all(s@.skip(i as int), pat@) == remove_all(s@, pat@),
        decreases n - i,
    {
        let ghost rest = s@.skip(i as int);
        let mut matched = m <= n && i <= n - m;
        if matched {
            let mut j: usize = 0;
            while j < m
                invariant
                    cs@ == s@,
                    ps@ == pat@,
                    n == cs@.len(),
                    m == ps@.len(),
                    i + m <= n,
                    j <= m,
                    matched ==> forall|t: int| 0 <= t < j ==> cs@[i + t] == ps@[t],
                    !matched ==> rest.take(m as int) != pat@,
                    rest == s@.skip(i as int),
                decreases m - j,
            {
                if matched && cs[i + j] != ps[j] {
                    proof {
                        assert(rest.take(m as int)[j as int] == cs@[i + j]);
                    }
                    matched = false;
                }
                j = j + 1;
            }
            if matched {
                assert(rest.take(m as int) =~= pat@);
            }
        } else {
            assert(rest.len() < m);
        }
        if matched {
            assert(rest.skip(m as int) =~= s@.skip(i + m));
            i = i + m;
        } else {
            let ghost prev = out@;
            push_char(&mut out, cs[i]);
            proof {
                assert(rest.drop_first() =~= s@.skip(i + 1));
                assert(rest[0] == cs@[i as int]);
                if rest.len() < m {
                    assert(remove_all(rest, pat@) == rest);
                    assert(remove_all(rest.drop_first(), pat@) == rest.drop_first());
                    assert(rest =~= seq![rest[0]] + rest.drop_first());
                } else {
                    assert(remove_all(rest, pat@) == seq![rest[0]] + remove_all(rest.drop_first(), pat@));
                }
                assert(out@ + remove_all(s@.skip(i + 1), pat@) =~= prev + remove_all(rest, pat@));
            }
            i = i + 1;
        }
    }
    assert(s@.skip(n as int) =~= Seq::<char>::empty());
    assert(out@ =~= remove_all(s@, pat@));
    out
}

/// The words of `s` joined by single spaces
/// (`s.split_whitespace().collect::<Vec<_>>().join(" ")`).
pub fn collapse_whitespace(s: &str) -> (r: String)
    ensures
        r@ == join_words(words(s@)),
{
    let cs = chars_of(s);
    let n = cs.len();
    let mut out = String::new();
    let ghost mut done: Seq<Seq<char>> = Seq::empty();
    let mut pos: usize = 0;
    let mut count: usize = 0;
    assert(s@.skip(0) =~= s@);
    while pos < n
        invariant
            count == done.len(),
            count <= pos,
            cs@ == s@,
            n == cs@.len(),
            pos <= n,
            words(s@) == done + words(s@.skip(pos as int)),
            out@ == join_words(done),
        decreases n - pos,
    {
        let mut a = pos;
        while a < n && is_whitespace(cs[a])
            invariant
                cs@ == s@,
                n == cs@.len(),
                pos <= a <= n,
                forall|i: int| pos <= i < a ==> is_ws(#[trigger] cs@[i]),
            decreases n - a,
        {
            a = a + 1;
        }
        let ghost rest = s@.skip(pos as int);
        proof {
            assert forall|i: int| 0 <= i < a - pos implies is_ws(#[trigger] rest[i]) by {
                assert(rest[i] == cs@[pos + i]);
            }
            if a < n {
                assert(rest[a - pos] == cs@[a as int]);
            }
            lemma_lead_ws_from(rest, a - pos);
            assert(rest.skip(a - pos) =~= s@.skip(a as int));
        }
        if a == n {
            assert(words(rest) == Seq::<Seq<char>>::empty());
            assert(s@.skip(n as int) =~= Seq::<char>::empty());
            assert(done + words(s@.skip(n as int)) =~= done);
            pos = n;
        } else {
            let mut b = a;
            while b < n && !is_whitespace(cs[b])
                invariant
                    cs@ == s@,
                    n == cs@.len(),
                    a <= b <= n,
                    forall|i: int| a <= i < b ==> !is_ws(#[trigger] cs@[i]),
                decreases n - b,
            {
                b = b + 1;
            }
            let ghost t = s@.skip(a as int);
            proof {
                assert forall|i: int| 0 <= i < b - a implies !is_ws(#[trigger] t[i]) by {
                    assert(t[i] == cs@[a + i]);
                }
                if b < n {
                    assert(t[b - a] == cs@[b as int]);
                }
                lemma_lead_word_from(t, b - a);
                assert(t.take(b - a) =~= s@.subrange(a as int, b as int));
                assert(t.skip(b - a) =~= s@.skip(b as int));
                assert(words(rest) == seq![s@.subrange(a as int, b as int)] + words(s@.skip(b as int)));
            }
            let ghost word = s@.subrange(a as int, b as int);
            let ghost before = out@;
            if count > 0 {
                push_char(&mut out, ' ');
            }
            out.append(s.substring_char(a, b));
            proof {
                let nd = done.push(word);
                assert(nd.drop_last() =~= done);
                if count == 0 {
                    assert(out@ =~= join_words(nd));
                } else {
                    assert(out@ =~= join_words(done) + seq![' '] + word);
                }
                assert(done + (seq![word] + words(s@.skip(b as int))) =~= nd + words(s@.skip(b as int)));
                done = nd;
            }
            count = count + 1;
            pos = b;
        }
    }
    out
}

/// `s` without its trailing slashes.
pub open spec fn trim_end_slashes(s: Seq<char>) -> Seq<char>
    decreases s.len(),
{
    if s.len() > 0 && s.last() == '/' {
        trim_end_slashes(s.drop_last())
    } else {
        s
    }
}

/// The server address: `VT_ASR_URL` when set, else the local default.
pub fn asr_base_url(configured: Option<String>) -> (u: String)
    ensures
        u@ == match configured {
            Some(c) => c@,
            None => "http://127.0.0.1:8000"@,
        },
{
    match configured {
        Some(c) => c,
        None => String::from_str("http://127.0.0.1:8000"),
    }
}

/// The transcription endpoint of the server at `base`
/// (`{base}/v1/audio/transcriptions`, without doubled slashes).
pub fn transcription_url(base: &str) -> (u: String)
    ensures
        u@ == trim_end_slashes(base@) + "/v1/audio/transcriptions"@,
{
    let cs = chars_of(base);
    let mut end = cs.len();
    assert(base@.take(end as int) =~= base@);
    while end > 0 && cs[end - 1] == '/'
        invariant
            cs@ == base@,
            end <= cs@.len(),
            trim_end_slashes(base@) == trim_end_slashes(base@.take(end as int)),
        decreases end,
    {
        assert(base@.take(end as int).drop_last() =~= base@.take(end - 1));
        end = end - 1;
    }
    let mut u = String::from_str(base.substring_char(0, end));
    assert(base@.subrange(0, end as int) =~= base@.take(end as int));
    u.append("/v1/audio/transcriptions");
    u
}

/// Drops whisper's non-speech tags (`[BLANK_AUDIO]`, `[NOISE]`, ...) and
/// normalizes whitespace to single spaces between words.
pub fn clean_text(text: &str) -> (r: String)
    ensures
        r@ == spec_clean_text(text@),
        single_spaced(r@),
{
    proof {
        lemma_collapse_single_spaced(strip_special_tokens(text@));
    }
    let s = remove_all_str(text, "[BLANK_AUDIO]");
    let s = remove_all_str(s.as_str(), "[NOISE]");
    let s = remove_all_str(s.as_str(), "[MUSIC]");
    let s = remove_all_str(s.as_str(), "[SPEECH]");
    let s = remove_all_str(s.as_str(), "[UNKNOWN]");
    let s = remove_all_str(s.as_str(), "[LAUGHTER]");
    let s = remove_all_str(s.as_str(), "[APPLAUSE]");
    let s = remove_all_str(s.as_str(), "[COUGH]");
    let s = remove_all_str(s.as_str(), "[THROAT_CLEARING]");
    let s = remove_all_str(s.as_str(), "[BREATH]");
    collapse_whitespace(s.as_str())
}


// ---------------------------------------------------------------------------
// What cleaning removes
// ---------------------------------------------------------------------------

/// The non-speech tags whisper writes into transcripts.
pub open spec fn whisper_tag(t: Seq<char>) -> bool {
    ||| t == "[BLANK_AUDIO]"@
    ||| t == "[NOISE]"@
    ||| t == "[MUSIC]"@
    ||| t == "[SPEECH]"@
    ||| t == "[UNKNOWN]"@
    ||| t == "[LAUGHTER]"@
    ||| t == "[APPLAUSE]"@
    ||| t == "[COUGH]"@
    ||| t == "[THROAT_CLEARING]"@
    ||| t == "[BREATH]"@
}

/// No `[` in `s`.
pub open spec fn bracket_free(s: Seq<char>) -> bool {
    forall|i: int| 0 <= i < s.len() ==> s[i] != '['
}

/// `[`, then characters other than brackets, then `]`.
pub open spec fn bracketed(t: Seq<char>) -> bool {
    &&& t.len() >= 2
    &&& t[0] == '['
    &&& t[t.len() - 1] == ']'
    &&& forall|i: int| 0 < i < t.len() - 1 ==> t[i] != '[' && t[i] != ']'
}

proof fn lemma_bracketed_from_len(t: Seq<char>, n: int)
    requires
        t.len() == n,
        n >= 2,
        t[0] == '[',
        t[n - 1] == ']',
        forall|i: int| 0 < i < n - 1 ==> t[i] != '[' && t[i] != ']',
    ensures
        bracketed(t),
{
}

/// Each whisper tag is bracketed.
proof fn lemma_whisper_tags_bracketed(t: Seq<char>)
    requires
        whisper_tag(t),
    ensures
        bracketed(t),
{
    reveal_strlit("[BLANK_AUDIO]");
    lemma_bracketed_from_len("[BLANK_AUDIO]"@, 13);
    reveal_strlit("[NOISE]");
    lemma_bracketed_from_len("[NOISE]"@, 7);
    reveal_strlit("[MUSIC]");
    lemma_bracketed_from_len("[MUSIC]"@, 7);
    reveal_strlit("[SPEECH]");
    lemma_bracketed_from_len("[SPEECH]"@, 8);
    reveal_strlit("[UNKNOWN]");
    lemma_bracketed_from_len("[UNKNOWN]"@, 9);
    reveal_strlit("[LAUGHTER]");
    lemma_bracketed_from_len("[LAUGHTER]"@, 10);
    reveal_strlit("[APPLAUSE]");
    lemma_bracketed_from_len("[APPLAUSE]"@, 10);
    reveal_strlit("[COUGH]");
    lemma_bracketed_from_len("[COUGH]"@, 7);
    reveal_strlit("[THROAT_CLEARING]");
    lemma_bracketed_from_len("[THROAT_CLEARING]"@, 17);
    reveal_strlit("[BREATH]");
    lemma_bracketed_from_len("[BREATH]"@, 8);
}

/// Removing a bracketed pattern passes over a prefix without `[`.
proof fn lemma_remove_prefix(a: Seq<char>, b: Seq<char>, u: Seq<char>)
    requires
        bracketed(u),
        bracket_free(a),
    ensures
        remove_all(a + b, u) == a + remove_all(b, u),
    decreases a.len(),
{
    let s = a + b;
    if a.len() == 0 {
        assert(s =~= b);
    } else if s.len() < u.len() {
        assert(b.len() < u.len());
    } else {
        assert(s.take(u.len() as int)[0] == a[0]);
        assert(s.take(u.len() as int) != u);
        assert(s.drop_first() =~= a.drop_first() + b);
        lemma_remove_prefix(a.drop_first(), b, u);
        assert(seq![s[0]] + (a.drop_first() + remove_all(b, u)) =~= a + remove_all(b, u));
    }
}

/// A bracketed pattern leaves text without `[` as it is.
proof fn lemma_remove_absent(a: Seq<char>, u: Seq<char>)
    requires
        bracketed(u),
        bracket_free(a),
    ensures
        remove_all(a, u) == a,
{
    lemma_remove_prefix(a, Seq::empty(), u);
    assert(a + Seq::<char>::empty() =~= a);
}

/// Removing the bracketed tag `t` from `t + w` or another bracketed pattern
/// `u` from it, when `w` has no `[`.
proof fn lemma_remove_at_tag(t: Seq<char>, w: Seq<char>, u: Seq<char>)
    requires
        bracketed(t),
        bracketed(u),
        bracket_free(w),
    ensures
        remove_all(t + w, u) == if u == t {
            w
        } else {
            t + w
        },
{
    let s = t + w;
    if u == t {
        assert(s.take(t.len() as int) =~= t);
        assert(s.skip(t.len() as int) =~= w);
        lemma_remove_absent(w, t);
    } else if s.len() >= u.len() {
        if s.take(u.len() as int) == u {
            if u.len() <= t.len() {
                assert(s[u.len() - 1] == s.take(u.len() as int)[u.len() - 1]);
                assert(t[u.len() - 1] == ']');
                assert(u.len() == t.len());
                assert(t =~= s.take(u.len() as int));
            } else {
                assert(s[t.len() - 1] == s.take(u.len() as int)[t.len() - 1]);
                assert(u[t.len() - 1] == ']');
            }
        }
        let rest = t.drop_first() + w;
        assert(s.drop_first() =~= rest);
        assert(bracket_free(rest)) by {
            assert forall|i: int| 0 <= i < rest.len() implies rest[i] != '[' by {
                if i < t.len() - 1 {
                    assert(rest[i] == t[i + 1]);
                } else {
                    assert(rest[i] == w[i - (t.len() - 1)]);
                }
            }
        }
        lemma_remove_absent(rest, u);
        assert(seq![s[0]] + rest =~= s);
    }
}

/// One removal step on `a + t + b` (with `t` the tag) or on `a + b`.
proof fn lemma_remove_one(a: Seq<char>, b: Seq<char>, t: Seq<char>, u: Seq<char>)
    requires
        whisper_tag(t),
        whisper_tag(u),
        bracket_free(a),
        bracket_free(b),
    ensures
        remove_all(a + t + b, u) == if u == t {
            a + b
        } else {
            a + t + b
        },
        remove_all(a + b, u) == a + b,
{
    lemma_whisper_tags_bracketed(t);
    lemma_whisper_tags_bracketed(u);
    assert(a + t + b =~= a + (t + b));
    lemma_remove_prefix(a, t + b, u);
    lemma_remove_at_tag(t, b, u);
    assert(bracket_free(a + b)) by {
        assert forall|i: int| 0 <= i < (a + b).len() implies (a + b)[i] != '[' by {
            if i >= a.len() {
                assert((a + b)[i] == b[i - a.len()]);
            }
        }
    }
    lemma_remove_absent(a + b, u);
}

/// Two words separated by two spaces split into those two words.
proof fn lemma_two_words(w1: Seq<char>, w2: Seq<char>)
    requires
        is_word(w1),
        is_word(w2),
    ensures
        words(w1 + seq![' ', ' '] + w2) == seq![w1, w2],
{
    let s = w1 + seq![' ', ' '] + w2;
    assert(s[0] == w1[0]);
    lemma_lead_ws_from(s, 0);
    let t = s.skip(0);
    assert(t =~= s);
    assert(forall|i: int| 0 <= i < w1.len() ==> t[i] == w1[i]);
    assert(t[w1.len() as int] == ' ');
    lemma_lead_word_from(t, w1.len() as int);
    assert(t.take(w1.len() as int) =~= w1);
    let rest = t.skip(w1.len() as int);
    assert(rest =~= seq![' ', ' '] + w2);
    assert(rest[0] == ' ' && rest[1] == ' ' && rest[2] == w2[0]);
    lemma_lead_ws_from(rest, 2);
    let t2 = rest.skip(2);
    assert(t2 =~= w2);
    lemma_lead_word_from(w2, w2.len() as int);
    assert(w2.take(w2.len() as int) =~= w2);
    let e = w2.skip(w2.len() as int);
    assert(e.len() == 0);
    assert(lead_ws(e) == 0);
    assert(words(e) == Seq::<Seq<char>>::empty());
    assert(words(rest) == seq![w2] + words(e));
    assert(words(rest) =~= seq![w2]);
    assert(words(s) == seq![w1] + words(rest));
    assert(words(s) =~= seq![w1, w2]);
}

/// Cleaning drops every whisper tag: a tag between two words (words
/// without whitespace or `[`) leaves just the two words, one space apart.
pub proof fn lemma_clean_drops_whisper_tags(w1: Seq<char>, tag: Seq<char>, w2: Seq<char>)
    requires
        is_word(w1),
        is_word(w2),
        bracket_free(w1),
        bracket_free(w2),
        whisper_tag(tag),
    ensures
        spec_clean_text(w1 + seq![' '] + tag + seq![' '] + w2) == w1 + seq![' '] + w2,
{
    let a = w1 + seq![' '];
    let b = seq![' '] + w2;
    assert(bracket_free(a)) by {
        assert forall|i: int| 0 <= i < a.len() implies a[i] != '[' by {
            if i < w1.len() {
                assert(a[i] == w1[i]);
            }
        }
    }
    assert(bracket_free(b)) by {
        assert forall|i: int| 0 <= i < b.len() implies b[i] != '[' by {
            if i > 0 {
                assert(b[i] == w2[i - 1]);
            }
        }
    }
    assert(w1 + seq![' '] + tag + seq![' '] + w2 =~= a + tag + b);
    lemma_remove_one(a, b, tag, "[BLANK_AUDIO]"@);
    lemma_remove_one(a, b, tag, "[NOISE]"@);
    lemma_remove_one(a, b, tag, "[MUSIC]"@);
    lemma_remove_one(a, b, tag, "[SPEECH]"@);
    lemma_remove_one(a, b, tag, "[UNKNOWN]"@);
    lemma_remove_one(a, b, tag, "[LAUGHTER]"@);
    lemma_remove_one(a, b, tag, "[APPLAUSE]"@);
    lemma_remove_one(a, b, tag, "[COUGH]"@);
    lemma_remove_one(a, b, tag, "[THROAT_CLEARING]"@);
    lemma_remove_one(a, b, tag, "[BREATH]"@);
    assert(strip_special_tokens(a + tag + b) == a + b);
    assert(a + b =~= w1 + seq![' ', ' '] + w2);
    lemma_two_words(w1, w2);
    assert(join_words(seq![w1, w2]) == join_words(seq![w1, w2].drop_last()) + seq![' '] + w2);
    assert(seq![w1, w2].drop_last() =~= seq![w1]);
}

} // verus!
