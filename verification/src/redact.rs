//! Removing from a reason everything that could carry data nobody asked to
//! store.
//!
//! A reason arrives from a rule name, a tray preset, or a client, and any of
//! those can hold whatever a person pasted into a text field. Four rules apply,
//! in order:
//!
//! 1. Control characters become spaces and runs of whitespace collapse to one,
//!    so a reason cannot smuggle a second line into a log or a menu.
//! 2. The reason is cut at the first whitespace-separated token that starts
//!    with `-`: the beginning of a command line, where a password lands.
//! 3. It is cut at the first token containing `/`: a path names the document
//!    someone is working on, and a lone path is cut like any other.
//! 4. It is cut at the first token containing `=`: the shape of an environment
//!    pair.
//!
//! Whatever is cut is replaced with [`REDACTION_MARKER`], and the result is
//! truncated to [`MAX_HISTORY_REASON_CHARS`] with a trailing `…`. A reason with
//! none of those shapes is returned unchanged.

use vstd::prelude::*;

use crate::text::{
    append_chars, char_is_control, chars_of, is_control, is_ws, join, join_chars, lemma_views_push,
    slice_chars, string_of, views, words, words_of, words_state,
};

verus! {

/// The longest a stored reason may be, in characters.
pub const MAX_HISTORY_REASON_CHARS: usize = 120;

/// What replaces the part of a reason that was cut away: `[…]`. A fixed marker,
/// so a reader can tell redaction from a reason that simply reads that way.
pub const REDACTION_MARKER: &'static str = "[\u{2026}]";

pub open spec fn marker() -> Seq<char> {
    seq!['[', '\u{2026}', ']']
}

pub open spec fn ellipsis() -> char {
    '\u{2026}'
}

pub open spec fn normalize(s: Seq<char>) -> Seq<char> {
    s.map_values(
        |c: char|
            if is_control(c) {
                ' '
            } else {
                c
            },
    )
}

/// The shape of a command-line flag, a path, or an environment pair.
pub open spec fn is_sensitive(token: Seq<char>) -> bool {
    (token.len() > 0 && token[0] == '-') || token.contains('=') || token.contains('/')
}

/// The tokens before the first sensitive one.
pub open spec fn kept_tokens(ts: Seq<Seq<char>>) -> Seq<Seq<char>>
    decreases ts.len(),
{
    if ts.len() == 0 || is_sensitive(ts[0]) {
        seq![]
    } else {
        seq![ts[0]] + kept_tokens(ts.drop_first())
    }
}

pub open spec fn has_sensitive(ts: Seq<Seq<char>>) -> bool {
    exists|i: int| 0 <= i < ts.len() && is_sensitive(#[trigger] ts[i])
}

/// The tokens that survive, with the marker after them when anything was cut.
pub open spec fn surviving_tokens(ts: Seq<Seq<char>>) -> Seq<Seq<char>> {
    if has_sensitive(ts) {
        kept_tokens(ts).push(marker())
    } else {
        kept_tokens(ts)
    }
}

/// A reason after the four rules and the length bound.
pub open spec fn redact_spec(raw: Seq<char>) -> Seq<char> {
    let m = join(surviving_tokens(words(normalize(raw))), seq![' ']);
    if m.len() > MAX_HISTORY_REASON_CHARS {
        m.take(MAX_HISTORY_REASON_CHARS - 1).push(ellipsis())
    } else {
        m
    }
}

// ---------------------------------------------------------------------------
// Text shapes
// ---------------------------------------------------------------------------

/// Single spaces between words, nothing at either end.
pub open spec fn canonical(s: Seq<char>) -> bool {
    &&& s.len() > 0 ==> !is_ws(s[0]) && !is_ws(s.last())
    &&& forall|i: int|
        0 <= i < s.len() && is_ws(#[trigger] s[i]) ==> s[i] == ' ' && i + 1 < s.len() && !is_ws(
            s[i + 1],
        )
}

pub open spec fn control_free(s: Seq<char>) -> bool {
    forall|i: int| 0 <= i < s.len() ==> !is_control(#[trigger] s[i])
}

/// Where a word may begin: the first character, or one after whitespace.
pub open spec fn is_word_start(s: Seq<char>, i: int) -> bool {
    0 <= i < s.len() && (i == 0 || is_ws(s[i - 1]))
}

/// No `=` or `/` anywhere, and no word beginning with `-`.
pub open spec fn safe_text(s: Seq<char>) -> bool {
    &&& forall|i: int| 0 <= i < s.len() ==> (#[trigger] s[i]) != '=' && s[i] != '/'
    &&& forall|i: int| #[trigger] is_word_start(s, i) ==> s[i] != '-'
}

/// Nonempty, free of whitespace and control characters, and not sensitive.
pub open spec fn plain_token(t: Seq<char>) -> bool {
    &&& t.len() > 0
    &&& forall|j: int| 0 <= j < t.len() ==> !is_ws(#[trigger] t[j]) && !is_control(t[j])
    &&& !is_sensitive(t)
}

pub open spec fn plain_tokens(ts: Seq<Seq<char>>) -> bool {
    forall|i: int| 0 <= i < ts.len() ==> plain_token(#[trigger] ts[i])
}

// ---------------------------------------------------------------------------
// What `words` does to text that is already canonical
// ---------------------------------------------------------------------------

proof fn lemma_words_state_step(s: Seq<char>, i: int)
    requires
        0 <= i < s.len(),
    ensures
        words_state(s.take(i + 1)) == ({
            let (done, cur) = words_state(s.take(i));
            if is_ws(s[i]) {
                if cur.len() > 0 {
                    (done.push(cur), seq![])
                } else {
                    (done, seq![])
                }
            } else {
                (done, cur.push(s[i]))
            }
        }),
{
    assert(s.take(i + 1).drop_last() == s.take(i));
}

/// Canonical text is the single-space join of its own words.
proof fn lemma_canonical_words_join(s: Seq<char>)
    requires
        canonical(s),
    ensures
        join(words(s), seq![' ']) == s,
{
    // For every prefix: a nonempty current word closes the prefix, and an
    // empty one means the prefix is empty or ends in the separator.
    assert forall|i: int| 0 <= i <= s.len() implies ({
        let (done, cur) = #[trigger] words_state(s.take(i));
        &&& cur.len() > 0 ==> join(done.push(cur), seq![' ']) == s.take(i)
        &&& cur.len() == 0 ==> (i == 0 && done.len() == 0) || (i > 0 && done.len() > 0 && s.take(i)
            == join(done, seq![' ']) + seq![' '])
        &&& cur.len() > 0 ==> i > 0 && !is_ws(s[i - 1])
        &&& cur.len() == 0 && i > 0 ==> is_ws(s[i - 1])
    }) by {
        lemma_canonical_prefix(s, i);
    }
    let (done, cur) = words_state(s.take(s.len() as int));
    assert(s.take(s.len() as int) == s);
    if s.len() == 0 {
        assert(words(s).len() == 0);
    } else {
        assert(cur.len() > 0);
    }
}

proof fn lemma_canonical_prefix(s: Seq<char>, i: int)
    requires
        canonical(s),
        0 <= i <= s.len(),
    ensures
        ({
            let (done, cur) = words_state(s.take(i));
            &&& cur.len() > 0 ==> join(done.push(cur), seq![' ']) == s.take(i)
            &&& cur.len() == 0 ==> (i == 0 && done.len() == 0) || (i > 0 && done.len() > 0
                && s.take(i) == join(done, seq![' ']) + seq![' '])
            &&& cur.len() > 0 ==> i > 0 && !is_ws(s[i - 1])
            &&& cur.len() == 0 && i > 0 ==> is_ws(s[i - 1])
        }),
    decreases i,
{
    if i == 0 {
        assert(s.take(0) =~= Seq::<char>::empty());
    } else {
        lemma_canonical_prefix(s, i - 1);
        lemma_words_state_step(s, i - 1);
        let (done, cur) = words_state(s.take(i - 1));
        assert(s.take(i) =~= s.take(i - 1).push(s[i - 1]));
        if is_ws(s[i - 1]) {
            // A separator always follows a word.
            assert(i - 1 > 0);
            assert(!is_ws(s[i - 2]));
            assert(cur.len() > 0);
            assert(done.push(cur).len() > 0);
        } else if cur.len() > 0 {
            let d = done.push(cur);
            let d2 = done.push(cur.push(s[i - 1]));
            if done.len() == 0 {
                assert(join(d, seq![' ']) == cur);
                assert(join(d2, seq![' ']) == cur.push(s[i - 1]));
            } else {
                assert(d.drop_last() == done && d2.drop_last() == done);
                assert(join(d2, seq![' ']) =~= join(d, seq![' ']).push(s[i - 1]));
            }
        } else if i - 1 == 0 {
            assert(join(seq![seq![s[0]]], seq![' ']) == seq![s[0]]);
            assert(done.push(seq![s[0]]) =~= seq![seq![s[0]]]);
            assert(s.take(1) =~= seq![s[0]]);
        } else {
            let d2 = done.push(seq![s[i - 1]]);
            assert(d2.drop_last() == done);
            assert(cur.push(s[i - 1]) =~= seq![s[i - 1]]);
            assert(join(d2, seq![' ']) =~= join(done, seq![' ']) + seq![' '] + seq![s[i - 1]]);
        }
    }
}

/// Every word of safe text is free of sensitive shapes.
proof fn lemma_safe_text_words(s: Seq<char>)
    requires
        safe_text(s),
    ensures
        forall|k: int| 0 <= k < words(s).len() ==> !is_sensitive(#[trigger] words(s)[k]),
{
    assert forall|i: int| 0 <= i <= s.len() implies ({
        let (done, cur) = #[trigger] words_state(s.take(i));
        &&& forall|k: int| 0 <= k < done.len() ==> !is_sensitive(#[trigger] done[k])
        &&& !is_sensitive(cur)
        &&& cur.len() > 0 ==> i > 0 && !is_ws(s[i - 1])
        &&& cur.len() == 0 && i > 0 ==> is_ws(s[i - 1])
    }) by {
        lemma_safe_prefix(s, i);
    }
    assert(s.take(s.len() as int) == s);
    let (done, cur) = words_state(s);
    assert forall|k: int| 0 <= k < words(s).len() implies !is_sensitive(#[trigger] words(s)[k]) by {
        if cur.len() > 0 && k == done.len() {
            assert(words(s)[k] == cur);
        } else {
            assert(words(s)[k] == done[k]);
        }
    }
}

proof fn lemma_safe_prefix(s: Seq<char>, i: int)
    requires
        safe_text(s),
        0 <= i <= s.len(),
    ensures
        ({
            let (done, cur) = words_state(s.take(i));
            &&& forall|k: int| 0 <= k < done.len() ==> !is_sensitive(#[trigger] done[k])
            &&& !is_sensitive(cur)
            &&& cur.len() > 0 ==> i > 0 && !is_ws(s[i - 1])
            &&& cur.len() == 0 && i > 0 ==> is_ws(s[i - 1])
        }),
    decreases i,
{
    if i == 0 {
        assert(s.take(0) =~= Seq::<char>::empty());
        assert(!seq![].contains('='));
    } else {
        lemma_safe_prefix(s, i - 1);
        lemma_words_state_step(s, i - 1);
        let (done, cur) = words_state(s.take(i - 1));
        let c = s[i - 1];
        if is_ws(c) {
            let d = if cur.len() > 0 {
                done.push(cur)
            } else {
                done
            };
            assert forall|k: int| 0 <= k < d.len() implies !is_sensitive(#[trigger] d[k]) by {
                if k < done.len() {
                    assert(d[k] == done[k]);
                }
            }
            assert(!Seq::<char>::empty().contains('='));
            assert(!Seq::<char>::empty().contains('/'));
        } else {
            let nc = cur.push(c);
            assert(c != '=' && c != '/');
            if cur.len() == 0 {
                assert(is_word_start(s, i - 1));
                assert(nc[0] == c);
            } else {
                assert(nc[0] == cur[0]);
            }
            assert(!nc.contains('=')) by {
                if nc.contains('=') {
                    let j = choose|j: int| 0 <= j < nc.len() && nc[j] == '=';
                    if j < cur.len() {
                        assert(cur[j] == '=');
                    }
                }
            }
            assert(!nc.contains('/')) by {
                if nc.contains('/') {
                    let j = choose|j: int| 0 <= j < nc.len() && nc[j] == '/';
                    if j < cur.len() {
                        assert(cur[j] == '/');
                    }
                }
            }
        }
    }
}

// ---------------------------------------------------------------------------
// What joining plain tokens produces
// ---------------------------------------------------------------------------

/// The join of plain tokens is canonical, free of control characters, and
/// safe.
proof fn lemma_join_plain(ts: Seq<Seq<char>>)
    requires
        plain_tokens(ts),
    ensures
        canonical(join(ts, seq![' '])),
        control_free(join(ts, seq![' '])),
        safe_text(join(ts, seq![' '])),
        ts.len() > 0 ==> join(ts, seq![' ']).len() > 0,
    decreases ts.len(),
{
    let s = join(ts, seq![' ']);
    if ts.len() == 0 {
    } else if ts.len() == 1 {
        let t = ts[0];
        assert(s == t);
        assert(plain_token(t));
        assert forall|i: int| 0 <= i < s.len() implies (#[trigger] s[i]) != '=' && s[i] != '/' by {
            if s[i] == '=' {
                assert(t.contains('='));
            }
            if s[i] == '/' {
                assert(t.contains('/'));
            }
        }
        assert forall|i: int| #[trigger] is_word_start(s, i) implies s[i] != '-' by {
            if i > 0 {
                assert(!is_ws(t[i - 1]));
            }
        }
    } else {
        let rest = ts.drop_last();
        let t = ts.last();
        assert(plain_tokens(rest)) by {
            assert forall|i: int| 0 <= i < rest.len() implies plain_token(#[trigger] rest[i]) by {
                assert(rest[i] == ts[i]);
            }
        }
        lemma_join_plain(rest);
        let a = join(rest, seq![' ']);
        assert(plain_token(t));
        assert(s == a + seq![' '] + t);
        let n = a.len();
        assert(n > 0);
        assert forall|i: int| 0 <= i < s.len() && is_ws(#[trigger] s[i]) implies s[i] == ' ' && i + 1
            < s.len() && !is_ws(s[i + 1]) by {
            if i < n {
                assert(s[i] == a[i]);
                if i + 1 < n {
                    assert(s[i + 1] == a[i + 1]);
                }
            } else if i > n {
                assert(s[i] == t[i - n - 1]);
            } else {
                assert(s[i + 1] == t[0]);
            }
        }
        assert(s[0] == a[0]);
        assert(s.last() == t.last());
        assert forall|i: int| 0 <= i < s.len() implies !is_control(#[trigger] s[i]) by {
            if i < n {
                assert(s[i] == a[i]);
            } else if i > n {
                assert(s[i] == t[i - n - 1]);
            }
        }
        assert forall|i: int| 0 <= i < s.len() implies (#[trigger] s[i]) != '=' && s[i] != '/' by {
            if i < n {
                assert(s[i] == a[i]);
            } else if i > n {
                assert(s[i] == t[i - n - 1]);
                if s[i] == '=' {
                    assert(t.contains('='));
                }
                if s[i] == '/' {
                    assert(t.contains('/'));
                }
            }
        }
        assert forall|i: int| #[trigger] is_word_start(s, i) implies s[i] != '-' by {
            if i < n {
                assert(s[i] == a[i]);
                if i > 0 {
                    assert(s[i - 1] == a[i - 1]);
                }
                assert(is_word_start(a, i));
            } else if i == n {
                assert(s[i - 1] == a[n - 1]);
            } else if i == n + 1 {
                assert(s[i] == t[0]);
            } else {
                assert(s[i - 1] == t[i - n - 2]);
            }
        }
    }
}

/// Cutting canonical, safe, control-free text short and ending it with `…`
/// keeps all three properties.
proof fn lemma_truncated_shape(m: Seq<char>, n: int)
    requires
        canonical(m),
        control_free(m),
        safe_text(m),
        0 < n < m.len(),
    ensures
        canonical(m.take(n).push(ellipsis())),
        control_free(m.take(n).push(ellipsis())),
        safe_text(m.take(n).push(ellipsis())),
{
    let r = m.take(n).push(ellipsis());
    assert(!is_ws(ellipsis()));
    assert forall|i: int| 0 <= i < r.len() && is_ws(#[trigger] r[i]) implies r[i] == ' ' && i + 1
        < r.len() && !is_ws(r[i + 1]) by {
        assert(i < n);
        assert(r[i] == m[i]);
        if i + 1 < n {
            assert(r[i + 1] == m[i + 1]);
        }
    }
    assert(r[0] == m[0]);
    assert forall|i: int| 0 <= i < r.len() implies !is_control(#[trigger] r[i]) by {
        if i < n {
            assert(r[i] == m[i]);
        }
    }
    assert forall|i: int| 0 <= i < r.len() implies (#[trigger] r[i]) != '=' && r[i] != '/' by {
        if i < n {
            assert(r[i] == m[i]);
        }
    }
    assert forall|i: int| #[trigger] is_word_start(r, i) implies r[i] != '-' by {
        if i < n {
            assert(r[i] == m[i]);
            if i > 0 {
                assert(r[i - 1] == m[i - 1]);
            }
            assert(is_word_start(m, i));
        }
    }
}

// ---------------------------------------------------------------------------
// The shape of a redacted reason
// ---------------------------------------------------------------------------

proof fn lemma_kept_tokens_plain(ts: Seq<Seq<char>>)
    requires
        forall|i: int|
            0 <= i < ts.len() ==> (#[trigger] ts[i]).len() > 0 && forall|j: int|
                0 <= j < ts[i].len() ==> !is_ws(#[trigger] ts[i][j]) && !is_control(ts[i][j]),
    ensures
        plain_tokens(kept_tokens(ts)),
        !has_sensitive(ts) ==> kept_tokens(ts) == ts,
    decreases ts.len(),
{
    if ts.len() > 0 {
        let rest = ts.drop_first();
        assert forall|i: int| 0 <= i < rest.len() implies (#[trigger] rest[i]).len() > 0 && forall|
            j: int,
        | 0 <= j < rest[i].len() ==> !is_ws(#[trigger] rest[i][j]) && !is_control(rest[i][j]) by {
            assert(rest[i] == ts[i + 1]);
        }
        lemma_kept_tokens_plain(rest);
        if !is_sensitive(ts[0]) {
            let k = kept_tokens(ts);
            assert forall|i: int| 0 <= i < k.len() implies plain_token(#[trigger] k[i]) by {
                if i > 0 {
                    assert(k[i] == kept_tokens(rest)[i - 1]);
                }
            }
            if !has_sensitive(ts) {
                assert(!has_sensitive(rest)) by {
                    if has_sensitive(rest) {
                        let i = choose|i: int| 0 <= i < rest.len() && is_sensitive(#[trigger] rest[i]);
                        assert(ts[i + 1] == rest[i]);
                    }
                }
                assert(kept_tokens(ts) =~= ts);
            }
        }
    }
}

/// Words of normalized text are nonempty and hold no whitespace and no
/// control characters.
proof fn lemma_normalized_words(raw: Seq<char>)
    ensures
        forall|i: int|
            0 <= i < words(normalize(raw)).len() ==> (#[trigger] words(normalize(raw))[i]).len() > 0
                && forall|j: int|
                0 <= j < words(normalize(raw))[i].len() ==> !is_ws(
                    #[trigger] words(normalize(raw))[i][j],
                ) && !is_control(words(normalize(raw))[i][j]),
{
    let s = normalize(raw);
    assert forall|i: int| 0 <= i < s.len() implies !is_control(#[trigger] s[i]) by {
        if is_control(raw[i]) {
            assert(s[i] == ' ');
        }
    }
    lemma_words_plain_chars(s, s.len() as int);
    assert(s.take(s.len() as int) == s);
}

proof fn lemma_words_plain_chars(s: Seq<char>, i: int)
    requires
        0 <= i <= s.len(),
        forall|k: int| 0 <= k < s.len() ==> !is_control(#[trigger] s[k]),
    ensures
        ({
            let (done, cur) = words_state(s.take(i));
            &&& forall|k: int|
                0 <= k < done.len() ==> (#[trigger] done[k]).len() > 0 && forall|j: int|
                    0 <= j < done[k].len() ==> !is_ws(#[trigger] done[k][j]) && !is_control(done[k][j])
            &&& forall|j: int| 0 <= j < cur.len() ==> !is_ws(#[trigger] cur[j]) && !is_control(cur[j])
        }),
        i == s.len() ==> forall|k: int|
            0 <= k < words(s).len() ==> (#[trigger] words(s)[k]).len() > 0 && forall|j: int|
                0 <= j < words(s)[k].len() ==> !is_ws(#[trigger] words(s)[k][j]) && !is_control(
                    words(s)[k][j],
                ),
    decreases i,
{
    if i == 0 {
        assert(s.take(0) =~= Seq::<char>::empty());
    } else {
        lemma_words_plain_chars(s, i - 1);
        lemma_words_state_step(s, i - 1);
        let (done, cur) = words_state(s.take(i - 1));
        let (nd, ncur) = words_state(s.take(i));
        assert forall|k: int| 0 <= k < nd.len() implies (#[trigger] nd[k]).len() > 0 && forall|j: int|
            0 <= j < nd[k].len() ==> !is_ws(#[trigger] nd[k][j]) && !is_control(nd[k][j]) by {
            if k < done.len() {
                assert(nd[k] == done[k]);
            } else {
                assert(nd[k] == cur);
            }
        }
        assert forall|j: int| 0 <= j < ncur.len() implies !is_ws(#[trigger] ncur[j]) && !is_control(
            ncur[j],
        ) by {
            if j < cur.len() {
                assert(ncur[j] == cur[j]);
            }
        }
    }
    if i == s.len() {
        assert(s.take(i) == s);
        let (done, cur) = words_state(s);
        assert forall|k: int| 0 <= k < words(s).len() implies (#[trigger] words(s)[k]).len() > 0
            && forall|j: int|
            0 <= j < words(s)[k].len() ==> !is_ws(#[trigger] words(s)[k][j]) && !is_control(
                words(s)[k][j],
            ) by {
            if cur.len() > 0 && k == done.len() {
                assert(words(s)[k] == cur);
            } else {
                assert(words(s)[k] == done[k]);
            }
        }
    }
}

proof fn lemma_marker_plain()
    ensures
        plain_token(marker()),
{
    let m = marker();
    assert(!m.contains('=')) by {
        if m.contains('=') {
            let j = choose|j: int| 0 <= j < m.len() && m[j] == '=';
        }
    }
    assert(!m.contains('/')) by {
        if m.contains('/') {
            let j = choose|j: int| 0 <= j < m.len() && m[j] == '/';
        }
    }
}

/// Every redacted reason is canonical text, free of control characters, with
/// no sensitive word, and within the bound.
pub proof fn lemma_redacted_shape(raw: Seq<char>)
    ensures
        canonical(redact_spec(raw)),
        control_free(redact_spec(raw)),
        safe_text(redact_spec(raw)),
        redact_spec(raw).len() <= MAX_HISTORY_REASON_CHARS,
{
    let ts = words(normalize(raw));
    lemma_normalized_words(raw);
    lemma_kept_tokens_plain(ts);
    lemma_marker_plain();
    let st = surviving_tokens(ts);
    assert(plain_tokens(st)) by {
        if has_sensitive(ts) {
            assert forall|i: int| 0 <= i < st.len() implies plain_token(#[trigger] st[i]) by {
                if i < kept_tokens(ts).len() {
                    assert(st[i] == kept_tokens(ts)[i]);
                }
            }
        }
    }
    lemma_join_plain(st);
    let m = join(st, seq![' ']);
    if m.len() > MAX_HISTORY_REASON_CHARS {
        lemma_truncated_shape(m, MAX_HISTORY_REASON_CHARS - 1);
    }
}

/// Text already in the shape of a redacted reason is its own redaction.
proof fn lemma_fixed_point(r: Seq<char>)
    requires
        canonical(r),
        control_free(r),
        safe_text(r),
        r.len() <= MAX_HISTORY_REASON_CHARS,
    ensures
        redact_spec(r) == r,
{
    assert(normalize(r) =~= r);
    lemma_canonical_words_join(r);
    lemma_safe_text_words(r);
    let ts = words(r);
    lemma_normalized_words(r);
    assert(!has_sensitive(ts));
    lemma_kept_tokens_plain(ts);
    assert(surviving_tokens(ts) == ts);
}

/// Redacting an already-redacted reason changes nothing further: the second
/// pass when a reason is recorded is a safety net, not a progressive shredder.
pub proof fn lemma_redaction_is_idempotent(raw: Seq<char>)
    ensures
        redact_spec(redact_spec(raw)) == redact_spec(raw),
{
    lemma_redacted_shape(raw);
    lemma_fixed_point(redact_spec(raw));
}

/// No word of a redacted reason starts with `-` or contains `=` or `/`: no
/// flag, no path, no environment pair reaches the history.
pub proof fn lemma_redaction_leaves_no_sensitive_word(raw: Seq<char>)
    ensures
        forall|k: int|
            0 <= k < words(redact_spec(raw)).len() ==> !is_sensitive(
                #[trigger] words(redact_spec(raw))[k],
            ),
{
    lemma_redacted_shape(raw);
    lemma_safe_text_words(redact_spec(raw));
}

/// An ordinary reason, already tidy and short, survives completely unchanged.
pub proof fn lemma_ordinary_reason_survives(raw: Seq<char>)
    requires
        canonical(raw),
        control_free(raw),
        safe_text(raw),
        raw.len() <= MAX_HISTORY_REASON_CHARS,
    ensures
        redact_spec(raw) == raw,
{
    lemma_fixed_point(raw);
}

// ---------------------------------------------------------------------------
// The executable redaction
// ---------------------------------------------------------------------------

fn is_sensitive_token(token: &Vec<char>) -> (b: bool)
    ensures
        b == is_sensitive(token@),
{
    if token.len() > 0 && token[0] == '-' {
        return true;
    }
    crate::text::contains_char(token, '=') || crate::text::contains_char(token, '/')
}

fn marker_chars() -> (m: Vec<char>)
    ensures
        m@ == marker(),
{
    let m = vec!['[', '\u{2026}', ']'];
    assert(m@ =~= marker());
    m
}

proof fn lemma_kept_prefix(ts: Seq<Seq<char>>, i: int)
    requires
        0 <= i <= ts.len(),
        forall|k: int| 0 <= k < i ==> !is_sensitive(#[trigger] ts[k]),
    ensures
        kept_tokens(ts) == ts.take(i) + kept_tokens(ts.skip(i)),
    decreases i,
{
    if i == 0 {
        assert(ts.skip(0) =~= ts);
        assert(ts.take(0) + kept_tokens(ts) =~= kept_tokens(ts));
    } else {
        let rest = ts.drop_first();
        assert forall|k: int| 0 <= k < i - 1 implies !is_sensitive(#[trigger] rest[k]) by {
            assert(rest[k] == ts[k + 1]);
        }
        lemma_kept_prefix(rest, i - 1);
        assert(rest.skip(i - 1) =~= ts.skip(i));
        assert(seq![ts[0]] + rest.take(i - 1) =~= ts.take(i));
        assert(kept_tokens(ts) == seq![ts[0]] + kept_tokens(rest));
        assert(seq![ts[0]] + (rest.take(i - 1) + kept_tokens(ts.skip(i))) =~= ts.take(i)
            + kept_tokens(ts.skip(i)));
    }
}

/// Removes from a reason everything that could carry data the user never
/// asked to store.
pub fn redact_reason(raw: &str) -> (r: String)
    ensures
        r@ == redact_spec(raw@),
        r@.len() <= MAX_HISTORY_REASON_CHARS,
{
    let chars = chars_of(raw);
    let mut normalized: Vec<char> = Vec::new();
    let mut i: usize = 0;
    while i < chars.len()
        invariant
            i <= chars.len(),
            normalized@ == normalize(chars@).take(i as int),
        decreases chars.len() - i,
    {
        let c = chars[i];
        normalized.push(
            if char_is_control(c) {
                ' '
            } else {
                c
            },
        );
        assert(normalized@ =~= normalize(chars@).take(i + 1));
        i += 1;
    }
    assert(normalized@ =~= normalize(raw@));
    let tokens = words_of(&normalized);
    let ghost ts = views(tokens@);
    let mut kept: Vec<Vec<char>> = Vec::new();
    let mut cut = false;
    let mut j: usize = 0;
    while j < tokens.len()
        invariant_except_break
            !cut,
        invariant
            j <= tokens.len(),
            ts == views(tokens@),
            views(kept@) == ts.take(j as int),
            forall|k: int| 0 <= k < j ==> !is_sensitive(#[trigger] ts[k]),
        ensures
            cut ==> j < tokens.len() && is_sensitive(ts[j as int]),
            !cut ==> j == tokens.len(),
        decreases tokens.len() - j,
    {
        assert(ts[j as int] == tokens@[j as int]@);
        if is_sensitive_token(&tokens[j]) {
            cut = true;
            break;
        }
        let ghost before = kept@;
        let t = crate::text::clone_chars(&tokens[j]);
        kept.push(t);
        proof {
            lemma_views_push(before, t);
            assert(ts.take(j + 1) =~= ts.take(j as int).push(ts[j as int]));
        }
        j += 1;
    }
    proof {
        lemma_kept_prefix(ts, j as int);
        if cut {
            assert(is_sensitive(ts[j as int]));
            assert(ts.skip(j as int)[0] == ts[j as int]);
            assert(kept_tokens(ts.skip(j as int)) == Seq::<Seq<char>>::empty());
            assert(has_sensitive(ts));
        } else {
            assert(ts.skip(j as int) =~= Seq::<Seq<char>>::empty());
            assert(!has_sensitive(ts));
        }
        assert(views(kept@) =~= kept_tokens(ts));
    }
    if cut {
        let ghost before = kept@;
        let m = marker_chars();
        kept.push(m);
        proof {
            lemma_views_push(before, m);
        }
    }
    assert(views(kept@) == surviving_tokens(ts));
    let sep = vec![' '];
    assert(sep@ =~= seq![' ']);
    let joined = join_chars(&kept, &sep);
    if joined.len() > MAX_HISTORY_REASON_CHARS {
        let mut short = slice_chars(&joined, 0, MAX_HISTORY_REASON_CHARS - 1);
        short.push('\u{2026}');
        proof {
            lemma_redacted_shape(raw@);
        }
        string_of(&short)
    } else {
        string_of(&joined)
    }
}

} // verus!
