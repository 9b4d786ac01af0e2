//! Audio playback, from `/proc/asound`.
//!
//! ALSA publishes one `status` file per playback substream. It reads `closed`
//! when nothing has the device open, and `state: RUNNING` when a stream is
//! moving samples. Matching on RUNNING rather than on "not closed" is what keeps
//! a paused video from holding the machine awake. Bluetooth and network sinks do
//! not appear under `/proc/asound`, so they are not seen here.

use vstd::prelude::*;

use crate::provider::{AUDIO_POLL_SECONDS, Answer, Cadence, ProviderKind, unavailable};
use crate::roots::{ReadError, Roots, path_join};
use crate::text::{
    chars_eq, chars_of, ends_with, has_prefix, lines, lines_of, skip_chars, starts_with, trim,
    trim_chars, views,
};

verus! {

/// One PCM device directory of a card.
#[derive(Debug, PartialEq, Eq)]
pub struct Pcm {
    /// The directory name, or `None` when it is not valid text.
    pub name: Option<String>,
    /// The `status` of each substream, `None` for one that could not be read;
    /// `None` as a whole when the directory could not be listed.
    pub substreams: Option<Vec<Option<String>>>,
}

/// One entry of `/proc/asound`.
#[derive(Debug, PartialEq, Eq)]
pub struct Card {
    /// The entry name, or `None` when it is not valid text.
    pub name: Option<String>,
    /// Its PCM directories, `None` when it could not be listed.
    pub pcms: Option<Vec<Pcm>>,
}

/// Sound cards are the entries named `card...`.
pub open spec fn is_card_name(name: Seq<char>) -> bool {
    has_prefix(name, "card"@)
}

/// Playback devices are `pcm...p`; `pcm...c` is capture, and a microphone
/// being open is no reason to keep the screen on.
pub open spec fn is_playback_name(name: Seq<char>) -> bool {
    has_prefix(name, "pcm"@) && name.len() > 0 && name.last() == 'p'
}

/// A status that says samples are moving: some line reads `state: RUNNING`.
pub open spec fn status_running(text: Seq<char>) -> bool {
    exists|i: int|
        0 <= i < lines(text).len() && #[trigger] line_is_running(lines(text)[i])
}

pub open spec fn line_is_running(line: Seq<char>) -> bool {
    let t = trim(line);
    has_prefix(t, "state:"@) && trim(t.skip("state:"@.len() as int)) == "RUNNING"@
}

pub open spec fn readable_statuses(subs: Seq<Option<String>>) -> Seq<Seq<char>>
    decreases subs.len(),
{
    if subs.len() == 0 {
        seq![]
    } else {
        let before = readable_statuses(subs.drop_last());
        match subs.last() {
            Some(text) => before.push(text@),
            None => before,
        }
    }
}

pub open spec fn pcm_statuses(p: Pcm) -> Seq<Seq<char>> {
    match (p.name, p.substreams) {
        (Some(name), Some(subs)) => if is_playback_name(name@) {
            readable_statuses(subs@)
        } else {
            seq![]
        },
        _ => seq![],
    }
}

pub open spec fn pcms_statuses(ps: Seq<Pcm>) -> Seq<Seq<char>>
    decreases ps.len(),
{
    if ps.len() == 0 {
        seq![]
    } else {
        pcms_statuses(ps.drop_last()) + pcm_statuses(ps.last())
    }
}

pub open spec fn card_statuses(c: Card) -> Seq<Seq<char>> {
    match (c.name, c.pcms) {
        (Some(name), Some(pcms)) => if is_card_name(name@) {
            pcms_statuses(pcms@)
        } else {
            seq![]
        },
        _ => seq![],
    }
}

/// Every readable playback substream status, card by card.
pub open spec fn cards_statuses(cs: Seq<Card>) -> Seq<Seq<char>>
    decreases cs.len(),
{
    if cs.len() == 0 {
        seq![]
    } else {
        cards_statuses(cs.drop_last()) + card_statuses(cs.last())
    }
}

/// `None` when there is no playback substream at all, which is a machine with
/// no sound card rather than a silent one; otherwise whether any is running.
pub open spec fn playing_spec(cs: Seq<Card>) -> Option<bool> {
    let st = cards_statuses(cs);
    if st.len() == 0 {
        None
    } else {
        Some(exists|i: int| 0 <= i < st.len() && #[trigger] status_running(st[i]))
    }
}

/// Substream `k` of PCM device `j` of entry `i` of `cs` is a readable
/// playback status on a sound card: the entry is a card, the device is a
/// playback device, and the status could be read.
pub open spec fn substream_readable(cs: Seq<Card>, i: int, j: int, k: int) -> bool {
    &&& 0 <= i < cs.len()
    &&& cs[i].name is Some && is_card_name(cs[i].name->0@)
    &&& cs[i].pcms is Some && 0 <= j < cs[i].pcms->0@.len()
    &&& cs[i].pcms->0@[j].name is Some && is_playback_name(cs[i].pcms->0@[j].name->0@)
    &&& cs[i].pcms->0@[j].substreams is Some && 0 <= k < cs[i].pcms->0@[j].substreams->0@.len()
    &&& cs[i].pcms->0@[j].substreams->0@[k] is Some
}

/// The status of that substream.
pub open spec fn substream_status(cs: Seq<Card>, i: int, j: int, k: int) -> Seq<char> {
    cs[i].pcms->0@[j].substreams->0@[k]->0@
}

proof fn lemma_readable_members(subs: Seq<Option<String>>)
    ensures
        forall|k: int|
            0 <= k < subs.len() && (#[trigger] subs[k]) is Some ==> readable_statuses(subs).contains(
                subs[k]->0@,
            ),
        forall|x: Seq<char>|
            #[trigger] readable_statuses(subs).contains(x) ==> exists|k: int|
                0 <= k < subs.len() && (#[trigger] subs[k]) is Some && subs[k]->0@ == x,
    decreases subs.len(),
{
    if subs.len() > 0 {
        let t = subs.drop_last();
        lemma_readable_members(t);
        let r = readable_statuses(subs);
        let rt = readable_statuses(t);
        assert forall|k: int| 0 <= k < subs.len() && (#[trigger] subs[k]) is Some implies r.contains(
            subs[k]->0@,
        ) by {
            if k < t.len() {
                assert(t[k] == subs[k]);
                assert(rt.contains(subs[k]->0@));
                let q = choose|q: int| 0 <= q < rt.len() && rt[q] == subs[k]->0@;
                assert(r[q] == rt[q]);
            } else {
                assert(r[r.len() - 1] == subs[k]->0@);
            }
        }
        assert forall|x: Seq<char>| #[trigger] r.contains(x) implies exists|k: int|
            0 <= k < subs.len() && (#[trigger] subs[k]) is Some && subs[k]->0@ == x by {
            let q = choose|q: int| 0 <= q < r.len() && r[q] == x;
            if q < rt.len() {
                assert(rt[q] == r[q]);
                assert(rt.contains(x));
                let k = choose|k: int| 0 <= k < t.len() && (#[trigger] t[k]) is Some && t[k]->0@ == x;
                assert(subs[k] == t[k]);
            } else {
                assert(subs[subs.len() - 1] is Some);
            }
        }
    }
}

proof fn lemma_pcms_members(ps: Seq<Pcm>)
    ensures
        forall|j: int, x: Seq<char>|
            0 <= j < ps.len() && #[trigger] pcm_statuses(ps[j]).contains(x) ==> #[trigger] pcms_statuses(
                ps,
            ).contains(x),
        forall|x: Seq<char>|
            #[trigger] pcms_statuses(ps).contains(x) ==> exists|j: int|
                0 <= j < ps.len() && #[trigger] pcm_statuses(ps[j]).contains(x),
    decreases ps.len(),
{
    if ps.len() > 0 {
        let t = ps.drop_last();
        lemma_pcms_members(t);
        let all = pcms_statuses(ps);
        let before = pcms_statuses(t);
        let last = pcm_statuses(ps.last());
        assert(all == before + last);
        assert forall|j: int, x: Seq<char>|
            0 <= j < ps.len() && #[trigger] pcm_statuses(ps[j]).contains(x) implies #[trigger] pcms_statuses(
            ps,
        ).contains(x) by {
            if j < t.len() {
                assert(t[j] == ps[j]);
                assert(before.contains(x));
                let q = choose|q: int| 0 <= q < before.len() && before[q] == x;
                assert(all[q] == x);
            } else {
                let q = choose|q: int| 0 <= q < last.len() && last[q] == x;
                assert(all[before.len() + q] == x);
            }
        }
        assert forall|x: Seq<char>| #[trigger] pcms_statuses(ps).contains(x) implies exists|j: int|
            0 <= j < ps.len() && #[trigger] pcm_statuses(ps[j]).contains(x) by {
            let q = choose|q: int| 0 <= q < all.len() && all[q] == x;
            if q < before.len() {
                assert(before[q] == x);
                assert(before.contains(x));
                let j = choose|j: int| 0 <= j < t.len() && #[trigger] pcm_statuses(t[j]).contains(x);
                assert(ps[j] == t[j]);
            } else {
                assert(last[q - before.len()] == x);
                assert(pcm_statuses(ps[ps.len() - 1]).contains(x));
            }
        }
    }
}

proof fn lemma_cards_members(cs: Seq<Card>)
    ensures
        forall|i: int, x: Seq<char>|
            0 <= i < cs.len() && #[trigger] card_statuses(cs[i]).contains(x) ==> #[trigger] cards_statuses(
                cs,
            ).contains(x),
        forall|x: Seq<char>|
            #[trigger] cards_statuses(cs).contains(x) ==> exists|i: int|
                0 <= i < cs.len() && #[trigger] card_statuses(cs[i]).contains(x),
    decreases cs.len(),
{
    if cs.len() > 0 {
        let t = cs.drop_last();
        lemma_cards_members(t);
        let all = cards_statuses(cs);
        let before = cards_statuses(t);
        let last = card_statuses(cs.last());
        assert(all == before + last);
        assert forall|i: int, x: Seq<char>|
            0 <= i < cs.len() && #[trigger] card_statuses(cs[i]).contains(x) implies #[trigger] cards_statuses(
            cs,
        ).contains(x) by {
            if i < t.len() {
                assert(t[i] == cs[i]);
                assert(before.contains(x));
                let q = choose|q: int| 0 <= q < before.len() && before[q] == x;
                assert(all[q] == x);
            } else {
                let q = choose|q: int| 0 <= q < last.len() && last[q] == x;
                assert(all[before.len() + q] == x);
            }
        }
        assert forall|x: Seq<char>| #[trigger] cards_statuses(cs).contains(x) implies exists|i: int|
            0 <= i < cs.len() && #[trigger] card_statuses(cs[i]).contains(x) by {
            let q = choose|q: int| 0 <= q < all.len() && all[q] == x;
            if q < before.len() {
                assert(before[q] == x);
                assert(before.contains(x));
                let i = choose|i: int| 0 <= i < t.len() && #[trigger] card_statuses(t[i]).contains(x);
                assert(cs[i] == t[i]);
            } else {
                assert(last[q - before.len()] == x);
                assert(card_statuses(cs[cs.len() - 1]).contains(x));
            }
        }
    }
}

/// A status is among those a listing yields exactly when some readable
/// playback substream of some card holds it.
proof fn lemma_status_member(cs: Seq<Card>, x: Seq<char>)
    ensures
        cards_statuses(cs).contains(x) <==> exists|i: int, j: int, k: int|
            #[trigger] substream_readable(cs, i, j, k) && substream_status(cs, i, j, k) == x,
{
    lemma_cards_members(cs);
    if cards_statuses(cs).contains(x) {
        let i = choose|i: int| 0 <= i < cs.len() && #[trigger] card_statuses(cs[i]).contains(x);
        let ps = cs[i].pcms->0@;
        lemma_pcms_members(ps);
        let j = choose|j: int| 0 <= j < ps.len() && #[trigger] pcm_statuses(ps[j]).contains(x);
        let subs = ps[j].substreams->0@;
        lemma_readable_members(subs);
        let k = choose|k: int| 0 <= k < subs.len() && (#[trigger] subs[k]) is Some && subs[k]->0@ == x;
        assert(substream_readable(cs, i, j, k) && substream_status(cs, i, j, k) == x);
    }
    if exists|i: int, j: int, k: int|
        #[trigger] substream_readable(cs, i, j, k) && substream_status(cs, i, j, k) == x {
        let (i, j, k) = choose|i: int, j: int, k: int|
            #[trigger] substream_readable(cs, i, j, k) && substream_status(cs, i, j, k) == x;
        let ps = cs[i].pcms->0@;
        let subs = ps[j].substreams->0@;
        lemma_readable_members(subs);
        assert(subs[k] is Some);
        assert(pcm_statuses(ps[j]).contains(x));
        lemma_pcms_members(ps);
        assert(pcms_statuses(ps).contains(x));
        assert(card_statuses(cs[i]).contains(x));
    }
}

/// Audio is playing exactly when some playback substream of some card, on
/// any card and whatever the others hold, reads `state: RUNNING`; there is
/// no answer at all exactly when no card has a readable playback substream.
pub proof fn lemma_playing_is_any_running_substream(cs: Seq<Card>)
    ensures
        playing_spec(cs) == Some(true) <==> exists|i: int, j: int, k: int|
            #[trigger] substream_readable(cs, i, j, k) && status_running(substream_status(cs, i, j, k)),
        playing_spec(cs) is None <==> !exists|i: int, j: int, k: int| #[trigger] substream_readable(cs, i, j, k),
{
    let st = cards_statuses(cs);
    if exists|i: int, j: int, k: int|
        #[trigger] substream_readable(cs, i, j, k) && status_running(substream_status(cs, i, j, k)) {
        let (i, j, k) = choose|i: int, j: int, k: int|
            #[trigger] substream_readable(cs, i, j, k) && status_running(substream_status(cs, i, j, k));
        let x = substream_status(cs, i, j, k);
        lemma_status_member(cs, x);
        let q = choose|q: int| 0 <= q < st.len() && st[q] == x;
        assert(status_running(st[q]));
    }
    if playing_spec(cs) == Some(true) {
        let q = choose|q: int| 0 <= q < st.len() && #[trigger] status_running(st[q]);
        lemma_status_member(cs, st[q]);
        assert(st.contains(st[q]));
    }
    if exists|i: int, j: int, k: int| #[trigger] substream_readable(cs, i, j, k) {
        let (i, j, k) = choose|i: int, j: int, k: int| #[trigger] substream_readable(cs, i, j, k);
        lemma_status_member(cs, substream_status(cs, i, j, k));
    }
    if st.len() > 0 {
        lemma_status_member(cs, st[0]);
        assert(st.contains(st[0]));
    }
}

/// Whether an entry of `/proc/asound` is a sound card worth listing.
pub fn is_card(name: &str) -> (b: bool)
    ensures
        b == is_card_name(name@),
{
    starts_with(&chars_of(name), &chars_of("card"))
}

/// Whether a card's entry is a playback device worth listing.
pub fn is_playback_pcm(name: &str) -> (b: bool)
    ensures
        b == is_playback_name(name@),
{
    let n = chars_of(name);
    starts_with(&n, &chars_of("pcm")) && n.len() > 0 && n[n.len() - 1] == 'p'
}

fn line_is_running_exec(line: &Vec<char>) -> (b: bool)
    ensures
        b == line_is_running(line@),
{
    let t = trim_chars(line);
    let prefix = chars_of("state:");
    if !starts_with(&t, &prefix) {
        return false;
    }
    let rest = trim_chars(&skip_chars(&t, prefix.len()));
    chars_eq(&rest, &chars_of("RUNNING"))
}

/// Whether one substream status says samples are moving.
pub fn status_is_running(text: &str) -> (b: bool)
    ensures
        b == status_running(text@),
{
    let ls = lines_of(&chars_of(text));
    let mut i: usize = 0;
    while i < ls.len()
        invariant
            i <= ls.len(),
            views(ls@) == lines(text@),
            forall|j: int| 0 <= j < i ==> !line_is_running(#[trigger] lines(text@)[j]),
        decreases ls.len() - i,
    {
        assert(ls@[i as int]@ == lines(text@)[i as int]);
        if line_is_running_exec(&ls[i]) {
            return true;
        }
        i += 1;
    }
    false
}

proof fn lemma_views_append(a: Seq<Vec<char>>, b: Seq<Vec<char>>)
    ensures
        views(a + b) == views(a) + views(b),
{
    assert(views(a + b) =~= views(a) + views(b));
}

fn readable_statuses_exec(subs: &Vec<Option<String>>) -> (out: Vec<Vec<char>>)
    ensures
        views(out@) == readable_statuses(subs@),
{
    let mut out: Vec<Vec<char>> = Vec::new();
    let mut i: usize = 0;
    while i < subs.len()
        invariant
            i <= subs.len(),
            views(out@) == readable_statuses(subs@.take(i as int)),
        decreases subs.len() - i,
    {
        assert(subs@.take(i + 1).drop_last() =~= subs@.take(i as int));
        assert(subs@.take(i + 1).last() == subs@[i as int]);
        match &subs[i] {
            Some(text) => {
                let ghost before = out@;
                let v = chars_of(text.as_str());
                out.push(v);
                proof {
                    crate::text::lemma_views_push(before, v);
                }
            },
            None => {},
        }
        i += 1;
    }
    assert(subs@.take(i as int) =~= subs@);
    out
}

fn pcms_statuses_exec(pcms: &Vec<Pcm>) -> (out: Vec<Vec<char>>)
    ensures
        views(out@) == pcms_statuses(pcms@),
{
    let mut out: Vec<Vec<char>> = Vec::new();
    let mut i: usize = 0;
    while i < pcms.len()
        invariant
            i <= pcms.len(),
            views(out@) == pcms_statuses(pcms@.take(i as int)),
        decreases pcms.len() - i,
    {
        assert(pcms@.take(i + 1).drop_last() =~= pcms@.take(i as int));
        assert(pcms@.take(i + 1).last() == pcms@[i as int]);
        let pcm = &pcms[i];
        let ghost before = out@;
        match (&pcm.name, &pcm.substreams) {
            (Some(name), Some(subs)) => {
                if is_playback_pcm(name.as_str()) {
                    let mut more = readable_statuses_exec(subs);
                    let ghost extra = more@;
                    out.append(&mut more);
                    proof {
                        lemma_views_append(before, extra);
                    }
                } else {
                    assert(views(out@) =~= views(before) + Seq::<Seq<char>>::empty());
                }
            },
            _ => {
                assert(views(out@) =~= views(before) + Seq::<Seq<char>>::empty());
            },
        }
        i += 1;
    }
    assert(pcms@.take(i as int) =~= pcms@);
    out
}

fn cards_statuses_exec(cards: &Vec<Card>) -> (out: Vec<Vec<char>>)
    ensures
        views(out@) == cards_statuses(cards@),
{
    let mut out: Vec<Vec<char>> = Vec::new();
    let mut i: usize = 0;
    while i < cards.len()
        invariant
            i <= cards.len(),
            views(out@) == cards_statuses(cards@.take(i as int)),
        decreases cards.len() - i,
    {
        assert(cards@.take(i + 1).drop_last() =~= cards@.take(i as int));
        assert(cards@.take(i + 1).last() == cards@[i as int]);
        let card = &cards[i];
        let ghost before = out@;
        match (&card.name, &card.pcms) {
            (Some(name), Some(pcms)) => {
                if is_card(name.as_str()) {
                    let mut more = pcms_statuses_exec(pcms);
                    let ghost extra = more@;
                    out.append(&mut more);
                    proof {
                        lemma_views_append(before, extra);
                    }
                } else {
                    assert(views(out@) =~= views(before) + Seq::<Seq<char>>::empty());
                }
            },
            _ => {
                assert(views(out@) =~= views(before) + Seq::<Seq<char>>::empty());
            },
        }
        i += 1;
    }
    assert(cards@.take(i as int) =~= cards@);
    out
}

#[derive(Clone, Debug)]
pub struct AudioProvider {
    roots: Roots,
}

pub open spec fn key_no_alsa_playback_device() -> Seq<char> {
    "awake.provider.no_alsa_playback_device"@
}

impl AudioProvider {
    pub closed spec fn roots_view(&self) -> Roots {
        self.roots
    }

    pub fn new(roots: Roots) -> (p: Self)
        ensures
            p.roots_view() == roots,
    {
        AudioProvider { roots }
    }

    /// `/proc/asound` under this provider's roots.
    pub fn asound_dir(&self) -> (p: String)
        ensures
            p@ == path_join(self.roots_view().proc_view(), "asound"@),
    {
        self.roots.proc_path("asound")
    }

    pub fn kind(&self) -> (k: ProviderKind)
        ensures
            k == ProviderKind::AudioPlayback,
    {
        ProviderKind::AudioPlayback
    }

    pub fn cadence(&self) -> (c: Cadence)
        ensures
            c == (Cadence::Poll { seconds: AUDIO_POLL_SECONDS }),
    {
        Cadence::Poll { seconds: AUDIO_POLL_SECONDS }
    }

    /// Whether any ALSA playback substream is running.
    ///
    /// `Ok(None)` when `/proc/asound` exists but holds no playback substream,
    /// which is a machine with no sound card rather than a machine that is
    /// silent. One running stream among several cards is enough.
    pub fn playing(listing: Result<Vec<Card>, ReadError>) -> (r: Result<Option<bool>, ReadError>)
        ensures
            match listing {
                Err(e) => r == Err::<Option<bool>, ReadError>(e),
                Ok(cards) => {
                    &&& r == Ok::<Option<bool>, ReadError>(playing_spec(cards@))
                    &&& (r == Ok::<Option<bool>, ReadError>(Some(true)) <==> exists|i: int, j: int, k: int|
                        #[trigger] substream_readable(cards@, i, j, k) && status_running(
                            substream_status(cards@, i, j, k),
                        ))
                    &&& (r == Ok::<Option<bool>, ReadError>(None) <==> !exists|i: int, j: int, k: int|
                        #[trigger] substream_readable(cards@, i, j, k))
                },
            },
    {
        proof {
            if listing is Ok {
                lemma_playing_is_any_running_substream(listing->Ok_0@);
            }
        }
        let cards = match listing {
            Err(e) => return Err(e),
            Ok(cards) => cards,
        };
        let statuses = cards_statuses_exec(&cards);
        let ghost st = cards_statuses(cards@);
        if statuses.len() == 0 {
            return Ok(None);
        }
        let mut playing = false;
        let mut i: usize = 0;
        while i < statuses.len()
            invariant
                i <= statuses.len(),
                views(statuses@) == st,
                playing == exists|j: int| 0 <= j < i && #[trigger] status_running(st[j]),
            decreases statuses.len() - i,
        {
            assert(st[i as int] == statuses@[i as int]@);
            let text = crate::text::string_of(&statuses[i]);
            if status_is_running(text.as_str()) {
                playing = true;
            }
            i += 1;
        }
        Ok(Some(playing))
    }

    /// What one look at `/proc/asound` answers.
    pub fn answer(playing: Result<Option<bool>, ReadError>) -> (a: Answer<bool>)
        ensures
            match playing {
                Err(e) => a matches Answer::Unavailable { explanation } && explanation@
                    == e.explanation_view(),
                Ok(None) => a matches Answer::Unavailable { explanation } && explanation@
                    == key_no_alsa_playback_device(),
                Ok(Some(p)) => a == Answer::Known(p),
            },
    {
        match playing {
            Err(error) => Answer::Unavailable { explanation: error.explanation() },
            Ok(None) => unavailable("awake.provider.no_alsa_playback_device"),
            Ok(Some(playing)) => Answer::Known(playing),
        }
    }
}

} // verus!
