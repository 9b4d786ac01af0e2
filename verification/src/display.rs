//! External displays, from `/sys/class/drm`.
//!
//! Each connector has a `status` reading `connected`, `disconnected`, or
//! `unknown`. "External" means every connector except the built-in panel, which
//! the kernel names `eDP`, `LVDS`, or `DSI`. A connector reporting `unknown` is
//! counted as not connected: keeping a machine awake for a monitor that may not
//! exist is the wrong way round to be wrong.

use vstd::prelude::*;

use crate::network::{split_once, split_once_chars};
use crate::provider::{Answer, Cadence, DISPLAY_POLL_SECONDS, ProviderKind, unavailable};
use crate::roots::{ReadError, Roots, path_join};
use crate::text::{chars_eq, chars_of, has_prefix, starts_with, string_of, trim, trim_chars};

verus! {

/// One connector and what it reported.
#[derive(Clone, Debug, PartialEq, Eq)]
pub struct Connector {
    /// The connector name with its card prefix removed, such as `HDMI-A-1`.
    pub name: String,
    pub connected: bool,
    pub internal: bool,
}

/// One entry of `/sys/class/drm`, as read at the edge.
#[derive(Debug, PartialEq, Eq)]
pub struct DrmEntry {
    /// The entry name, or `None` when it is not valid text.
    pub name: Option<String>,
    /// The raw contents of its `status`, `None` when it has none. Only
    /// connectors have one; `card1`, `renderD128` and `version` do not.
    pub status: Option<String>,
}

/// `card1-HDMI-A-1` names `HDMI-A-1`; a name with no card prefix stands as is.
pub open spec fn connector_name(entry: Seq<char>) -> Seq<char> {
    match split_once(entry, '-') {
        Some((_, rest)) => rest,
        None => entry,
    }
}

pub open spec fn is_internal_panel(name: Seq<char>) -> bool {
    has_prefix(name, "eDP"@) || has_prefix(name, "LVDS"@) || has_prefix(name, "DSI"@)
}

/// What one entry contributes: a connector, unless it has no status or is a
/// writeback connector, which is a capture target rather than a screen.
pub open spec fn connector_of(e: DrmEntry) -> Option<(Seq<char>, bool, bool)> {
    match (e.name, e.status) {
        (Some(entry), Some(raw)) => {
            let name = connector_name(entry@);
            if has_prefix(name, "Writeback"@) {
                None
            } else {
                Some((name, trim(raw@) == "connected"@, is_internal_panel(name)))
            }
        },
        _ => None,
    }
}

pub open spec fn connectors_spec(es: Seq<DrmEntry>) -> Seq<(Seq<char>, bool, bool)>
    decreases es.len(),
{
    if es.len() == 0 {
        seq![]
    } else {
        let before = connectors_spec(es.drop_last());
        match connector_of(es.last()) {
            Some(c) => before.push(c),
            None => before,
        }
    }
}

pub open spec fn connector_view(c: Connector) -> (Seq<char>, bool, bool) {
    (c.name@, c.connected, c.internal)
}

/// Whether any connector that is not the built-in panel has a screen on it.
pub open spec fn any_external(cs: Seq<(Seq<char>, bool, bool)>) -> bool {
    exists|i: int| 0 <= i < cs.len() && !(#[trigger] cs[i]).2 && cs[i].1
}

/// Entry `i` of `es` is a screen on a connector other than the built-in
/// panel: it has a status reading `connected`, it is not a writeback
/// connector, and its name after the card prefix begins with none of `eDP`,
/// `LVDS` and `DSI`.
pub open spec fn shows_external_screen(es: Seq<DrmEntry>, i: int) -> bool {
    &&& 0 <= i < es.len()
    &&& es[i].name is Some
    &&& es[i].status is Some
    &&& trim(es[i].status->0@) == "connected"@
    &&& !has_prefix(connector_name(es[i].name->0@), "Writeback"@)
    &&& !has_prefix(connector_name(es[i].name->0@), "eDP"@)
    &&& !has_prefix(connector_name(es[i].name->0@), "LVDS"@)
    &&& !has_prefix(connector_name(es[i].name->0@), "DSI"@)
}

proof fn lemma_connector_members(es: Seq<DrmEntry>)
    ensures
        forall|i: int|
            0 <= i < es.len() && (#[trigger] connector_of(es[i])) is Some ==> connectors_spec(es).contains(
                connector_of(es[i])->0,
            ),
        forall|c: (Seq<char>, bool, bool)|
            #[trigger] connectors_spec(es).contains(c) ==> exists|i: int|
                0 <= i < es.len() && #[trigger] connector_of(es[i]) == Some(c),
    decreases es.len(),
{
    if es.len() > 0 {
        let t = es.drop_last();
        lemma_connector_members(t);
        let all = connectors_spec(es);
        let before = connectors_spec(t);
        assert forall|i: int| 0 <= i < es.len() && (#[trigger] connector_of(es[i])) is Some implies all.contains(
            connector_of(es[i])->0,
        ) by {
            if i < t.len() {
                assert(t[i] == es[i]);
                let q = choose|q: int| 0 <= q < before.len() && before[q] == connector_of(es[i])->0;
                assert(all[q] == before[q]);
            } else {
                assert(all[all.len() - 1] == connector_of(es[i])->0);
            }
        }
        assert forall|c: (Seq<char>, bool, bool)| #[trigger] all.contains(c) implies exists|i: int|
            0 <= i < es.len() && #[trigger] connector_of(es[i]) == Some(c) by {
            let q = choose|q: int| 0 <= q < all.len() && all[q] == c;
            if q < before.len() {
                assert(before[q] == c);
                assert(before.contains(c));
                let i = choose|i: int| 0 <= i < t.len() && #[trigger] connector_of(t[i]) == Some(c);
                assert(es[i] == t[i]);
            } else {
                assert(connector_of(es[es.len() - 1]) == Some(c));
            }
        }
    }
}

/// An external display is seen exactly when some connector other than the
/// built-in panel (`eDP`, `LVDS`, `DSI`) reports `connected`: a monitor on
/// DisplayPort, HDMI or a dock counts, the laptop's own screen never does.
pub proof fn lemma_external_is_any_connected_non_panel(es: Seq<DrmEntry>)
    ensures
        any_external(connectors_spec(es)) <==> exists|i: int| #[trigger] shows_external_screen(es, i),
{
    lemma_connector_members(es);
    let cs = connectors_spec(es);
    if any_external(cs) {
        let q = choose|q: int| 0 <= q < cs.len() && !(#[trigger] cs[q]).2 && cs[q].1;
        assert(cs.contains(cs[q]));
        let i = choose|i: int| 0 <= i < es.len() && #[trigger] connector_of(es[i]) == Some(cs[q]);
        assert(shows_external_screen(es, i));
    }
    if exists|i: int| #[trigger] shows_external_screen(es, i) {
        let i = choose|i: int| #[trigger] shows_external_screen(es, i);
        assert(connector_of(es[i]) is Some);
        let c = connector_of(es[i])->0;
        assert(cs.contains(c));
        let q = choose|q: int| 0 <= q < cs.len() && cs[q] == c;
        assert(!cs[q].2 && cs[q].1);
    }
}

fn connector_of_exec(e: &DrmEntry) -> (r: Option<Connector>)
    ensures
        match connector_of(*e) {
            None => r is None,
            Some(c) => r matches Some(x) && connector_view(x) == c,
        },
{
    let (entry, raw) = match (&e.name, &e.status) {
        (Some(entry), Some(raw)) => (entry, raw),
        _ => return None,
    };
    let chars = chars_of(entry.as_str());
    let name = match split_once_chars(&chars, '-') {
        Some((_, rest)) => rest,
        None => chars,
    };
    if starts_with(&name, &chars_of("Writeback")) {
        return None;
    }
    let internal = starts_with(&name, &chars_of("eDP")) || starts_with(&name, &chars_of("LVDS"))
        || starts_with(&name, &chars_of("DSI"));
    let status = trim_chars(&chars_of(raw.as_str()));
    let connected = chars_eq(&status, &chars_of("connected"));
    Some(Connector { name: string_of(&name), connected, internal })
}

#[derive(Clone, Debug)]
pub struct DisplayProvider {
    roots: Roots,
}

pub open spec fn key_no_drm_connectors() -> Seq<char> {
    "awake.provider.no_drm_connectors"@
}

impl DisplayProvider {
    pub closed spec fn roots_view(&self) -> Roots {
        self.roots
    }

    pub fn new(roots: Roots) -> (p: Self)
        ensures
            p.roots_view() == roots,
    {
        DisplayProvider { roots }
    }

    /// `/sys/class/drm` under this provider's roots.
    pub fn drm_dir(&self) -> (p: String)
        ensures
            p@ == path_join(self.roots_view().sys_view(), "class/drm"@),
    {
        self.roots.sys_path("class/drm")
    }

    pub fn kind(&self) -> (k: ProviderKind)
        ensures
            k == ProviderKind::ExternalDisplay,
    {
        ProviderKind::ExternalDisplay
    }

    pub fn cadence(&self) -> (c: Cadence)
        ensures
            c == (Cadence::Poll { seconds: DISPLAY_POLL_SECONDS }),
    {
        Cadence::Poll { seconds: DISPLAY_POLL_SECONDS }
    }

    /// Every connector the kernel exposes, in listing order.
    ///
    /// Only the entries with a `status` file are connectors, which is a more
    /// durable test than pattern-matching the name.
    pub fn connectors(listing: Result<Vec<DrmEntry>, ReadError>) -> (r: Result<Vec<Connector>, ReadError>)
        ensures
            match listing {
                Err(e) => r == Err::<Vec<Connector>, ReadError>(e),
                Ok(es) => r matches Ok(cs) && cs@.map_values(|c: Connector| connector_view(c))
                    == connectors_spec(es@) && (any_external(
                    cs@.map_values(|c: Connector| connector_view(c)),
                ) <==> exists|i: int| #[trigger] shows_external_screen(es@, i)),
            },
    {
        proof {
            if listing is Ok {
                lemma_external_is_any_connected_non_panel(listing->Ok_0@);
            }
        }
        let entries = match listing {
            Err(e) => return Err(e),
            Ok(es) => es,
        };
        let mut out: Vec<Connector> = Vec::new();
        let mut i: usize = 0;
        while i < entries.len()
            invariant
                i <= entries.len(),
                out@.map_values(|c: Connector| connector_view(c)) == connectors_spec(
                    entries@.take(i as int),
                ),
            decreases entries.len() - i,
        {
            assert(entries@.take(i + 1).drop_last() =~= entries@.take(i as int));
            assert(entries@.take(i + 1).last() == entries@[i as int]);
            let ghost before = out@;
            match connector_of_exec(&entries[i]) {
                Some(c) => {
                    out.push(c);
                    assert(out@.map_values(|c: Connector| connector_view(c)) =~= before.map_values(
                        |c: Connector| connector_view(c),
                    ).push(connector_view(out@.last())));
                },
                None => {},
            }
            i += 1;
        }
        assert(entries@.take(i as int) =~= entries@);
        Ok(out)
    }

    /// Whether any external connector is connected.
    pub fn external_connected(connectors: &Vec<Connector>) -> (b: bool)
        ensures
            b == any_external(connectors@.map_values(|c: Connector| connector_view(c))),
    {
        let ghost cs = connectors@.map_values(|c: Connector| connector_view(c));
        let mut i: usize = 0;
        while i < connectors.len()
            invariant
                i <= connectors.len(),
                cs == connectors@.map_values(|c: Connector| connector_view(c)),
                forall|j: int| 0 <= j < i ==> !(!(#[trigger] cs[j]).2 && cs[j].1),
            decreases connectors.len() - i,
        {
            assert(cs[i as int] == connector_view(connectors@[i as int]));
            if !connectors[i].internal && connectors[i].connected {
                return true;
            }
            i += 1;
        }
        false
    }

    /// What one look at `/sys/class/drm` answers.
    ///
    /// A directory with no connectors at all means no kernel-mode-setting
    /// driver is loaded, which is a real state on a virtual machine; reporting
    /// "no external display" there would be a guess dressed as a reading.
    pub fn answer(connectors: Result<Vec<Connector>, ReadError>) -> (a: Answer<bool>)
        ensures
            match connectors {
                Err(e) => a matches Answer::Unavailable { explanation } && explanation@
                    == e.explanation_view(),
                Ok(cs) => if cs.len() == 0 {
                    a matches Answer::Unavailable { explanation } && explanation@
                        == key_no_drm_connectors()
                } else {
                    a == Answer::Known(any_external(cs@.map_values(|c: Connector| connector_view(c))))
                },
            },
    {
        match connectors {
            Err(error) => Answer::Unavailable { explanation: error.explanation() },
            Ok(cs) => {
                if cs.len() == 0 {
                    unavailable("awake.provider.no_drm_connectors")
                } else {
                    Answer::Known(Self::external_connected(&cs))
                }
            },
        }
    }
}

} // verus!
