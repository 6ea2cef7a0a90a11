//! The recipe extractor: a tag-context state machine over the event stream
//! of a definition document.
//!
//! The machine tracks which semantically meaningful elements are open. While
//! an identifier-shadowing container (the component-requirement list, the
//! by-product list, or any further configured container) is open, identifier
//! tracking is suspended, so identifier-like element names inside such a
//! container never leak into the active block identifier. A block whose
//! primary identifier is empty or self-closing takes the fallback identifier
//! instead. Every self-closing element inside the component-requirement list
//! is a requirement entry carrying, positionally, a component identifier and
//! a quantity; each yields one `(block, component, quantity)` triple. A
//! triple whose block identifier is already active is emitted at once; one
//! seen before the block's identifier elements is held back and emitted the
//! moment the identifier resolves — no triple ever carries an empty
//! identifier, so no finalized record is keyed by one.

use vstd::prelude::*;

use crate::error::ScanError;
use crate::events::{EventV, XmlEvent};
use crate::quantity::{parse_quantity, spec_parse_quantity};
use crate::table::{fold_triples, nonempty_triples, table_ids_ok, RecipeTable, TableV, TripleV};
use crate::xml::{doc_scan, scan_document};

verus! {

/// Which elements of a definition document mean what. Data, not code: new
/// shadowing containers can be added without touching the machine.
pub struct DefinitionConfig {
    /// Element whose text names the block type (primary identifier).
    pub primary_tag: String,
    /// Element whose text is the fallback identifier, used when the primary
    /// identifier turns out empty.
    pub fallback_tag: String,
    /// Element opening the component-requirement list.
    pub component_list_tag: String,
    /// Further identifier-shadowing containers (for instance a by-product
    /// list that may reuse the primary identifier's tag name inside).
    pub shadow_tags: Vec<String>,
}

/// The mathematical value of a [`DefinitionConfig`].
pub struct DefCfgV {
    pub primary: Seq<char>,
    pub fallback: Seq<char>,
    pub component_list: Seq<char>,
    pub shadows: Seq<Seq<char>>,
}

impl View for DefinitionConfig {
    type V = DefCfgV;

    open spec fn view(&self) -> DefCfgV {
        DefCfgV {
            primary: self.primary_tag@,
            fallback: self.fallback_tag@,
            component_list: self.component_list_tag@,
            shadows: self.shadow_tags.deep_view(),
        }
    }
}

/// Whether `name` opens an identifier-shadowing container.
pub open spec fn is_shadow(cfg: DefCfgV, name: Seq<char>) -> bool {
    name == cfg.component_list || cfg.shadows.contains(name)
}

/// The scanner context while walking a definition document.
pub struct ExtractState {
    /// The currently open identifier-shadowing container, if any.
    pub shadow: Option<String>,
    /// Inside the primary-identifier element.
    pub in_primary: bool,
    /// Inside the fallback-identifier element.
    pub in_fallback: bool,
    /// The most recently captured primary identifier text.
    pub primary: String,
    /// The most recently captured fallback identifier text.
    pub fallback: String,
    /// Requirement entries seen while no block identifier is active yet
    /// (their list preceded the block's identifier elements): held back, and
    /// committed the moment the identifier resolves. A triple is never
    /// committed under an empty block identifier.
    pub pending: Vec<(String, u64)>,
}

/// The mathematical value of an [`ExtractState`].
pub struct StateV {
    pub shadow: Option<Seq<char>>,
    pub in_primary: bool,
    pub in_fallback: bool,
    pub primary: Seq<char>,
    pub fallback: Seq<char>,
    pub pending: Seq<(Seq<char>, u64)>,
}

impl View for ExtractState {
    type V = StateV;

    open spec fn view(&self) -> StateV {
        StateV {
            shadow: match self.shadow {
                Some(ref s) => Some(s@),
                None => None,
            },
            in_primary: self.in_primary,
            in_fallback: self.in_fallback,
            primary: self.primary@,
            fallback: self.fallback@,
            pending: self.pending.deep_view(),
        }
    }
}

/// The scanner context before any event: nothing open, nothing captured.
pub open spec fn initial_state() -> StateV {
    StateV {
        shadow: None,
        in_primary: false,
        in_fallback: false,
        primary: Seq::empty(),
        fallback: Seq::empty(),
        pending: Seq::empty(),
    }
}

/// The context-tracking rules of the recipe extractor, before held-back
/// entries are released: one event takes the state to a new state and emits
/// the requirement triples it denotes under an already-active block
/// identifier, or fails the run. An entry seen while the block identifier is
/// still empty joins `pending` instead of being emitted.
pub open spec fn def_step_base(cfg: DefCfgV, st: StateV, ev: EventV) -> Result<
    (StateV, Seq<TripleV>),
    ScanError,
> {
    match ev {
        EventV::Open { name, attrs } => match st.shadow {
            Some(_) => Ok((st, Seq::empty())),
            None => {
                if is_shadow(cfg, name) {
                    Ok((StateV { shadow: Some(name), ..st }, Seq::empty()))
                } else if name == cfg.primary {
                    Ok((StateV { in_primary: true, primary: Seq::empty(), ..st }, Seq::empty()))
                } else if name == cfg.fallback {
                    Ok((StateV { in_fallback: true, primary: Seq::empty(), ..st }, Seq::empty()))
                } else {
                    Ok((st, Seq::empty()))
                }
            },
        },
        EventV::Close { name } => match st.shadow {
            Some(open_tag) => {
                if name == open_tag {
                    Ok((StateV { shadow: None, ..st }, Seq::empty()))
                } else {
                    Ok((st, Seq::empty()))
                }
            },
            None => {
                if name == cfg.primary {
                    let effective = if st.primary.len() == 0 {
                        st.fallback
                    } else {
                        st.primary
                    };
                    Ok((StateV { in_primary: false, primary: effective, ..st }, Seq::empty()))
                } else if name == cfg.fallback {
                    Ok((StateV { in_fallback: false, ..st }, Seq::empty()))
                } else {
                    Ok((st, Seq::empty()))
                }
            },
        },
        EventV::Text { content } => {
            if st.shadow is None {
                Ok(
                    (
                        StateV {
                            primary: if st.in_primary {
                                content
                            } else {
                                st.primary
                            },
                            fallback: if st.in_fallback {
                                content
                            } else {
                                st.fallback
                            },
                            ..st
                        },
                        Seq::empty(),
                    ),
                )
            } else {
                Ok((st, Seq::empty()))
            }
        },
        EventV::SelfClose { name, attrs } => match st.shadow {
            Some(open_tag) => {
                if open_tag == cfg.component_list {
                    if attrs.len() < 2 || attrs[0].len() == 0 {
                        Err(ScanError::MissingAttribute)
                    } else {
                        match spec_parse_quantity(attrs[1]) {
                            Some(q) => {
                                if st.primary.len() == 0 {
                                    Ok(
                                        (
                                            StateV { pending: st.pending.push((attrs[0], q)), ..st },
                                            Seq::empty(),
                                        ),
                                    )
                                } else {
                                    Ok((st, seq![(st.primary, attrs[0], q)]))
                                }
                            },
                            None => Err(ScanError::InvalidQuantity),
                        }
                    }
                } else {
                    Ok((st, Seq::empty()))
                }
            },
            None => {
                if name == cfg.primary {
                    Ok((StateV { primary: st.fallback, ..st }, Seq::empty()))
                } else {
                    Ok((st, Seq::empty()))
                }
            },
        },
        EventV::Other => Ok((st, Seq::empty())),
    }
}

/// Release held-back requirement entries once a block identifier is active:
/// each pending entry becomes a triple under that identifier. While the
/// identifier is still empty, nothing is released.
pub open spec fn flush_pending(st: StateV) -> (StateV, Seq<TripleV>) {
    if st.primary.len() > 0 && st.pending.len() > 0 {
        (
            StateV { pending: Seq::empty(), ..st },
            st.pending.map_values(|e: (Seq<char>, u64)| (st.primary, e.0, e.1)),
        )
    } else {
        (st, Seq::empty())
    }
}

/// The transition rules of the recipe extractor: one event takes the state
/// to a new state and emits the requirement triples the event denotes, or
/// fails the run. Entries whose list preceded the block's identifier
/// elements are emitted right after the identifier resolves; no triple ever
/// carries an empty block identifier.
pub open spec fn def_step(cfg: DefCfgV, st: StateV, ev: EventV) -> Result<
    (StateV, Seq<TripleV>),
    ScanError,
> {
    match def_step_base(cfg, st, ev) {
        Ok((s1, direct)) => {
            let (s2, released) = flush_pending(s1);
            Ok((s2, direct + released))
        },
        Err(e) => Err(e),
    }
}

/// Every held-back requirement entry carries a non-empty component
/// identifier.
pub open spec fn pending_ids_ok(st: StateV) -> bool {
    forall|i: int| 0 <= i < st.pending.len() ==> (#[trigger] st.pending[i]).0.len() > 0
}

/// One step emits only triples with non-empty identifiers, and keeps the
/// held-back entries' identifiers non-empty.
pub proof fn lemma_def_step_nonempty(cfg: DefCfgV, st: StateV, ev: EventV)
    requires
        pending_ids_ok(st),
    ensures
        match def_step(cfg, st, ev) {
            Ok((s2, trs)) => pending_ids_ok(s2) && nonempty_triples(trs),
            Err(_) => true,
        },
{
    match def_step_base(cfg, st, ev) {
        Ok((s1, direct)) => {
            assert(pending_ids_ok(s1)) by {
                if s1.pending != st.pending {
                    assert(forall|i: int|
                        0 <= i < st.pending.len() ==> #[trigger] s1.pending[i]
                            == st.pending[i]);
                }
            }
            assert(nonempty_triples(direct));
            let (s2, released) = flush_pending(s1);
            assert(nonempty_triples(released)) by {
                if s1.primary.len() > 0 && s1.pending.len() > 0 {
                    assert(forall|i: int|
                        0 <= i < released.len() ==> #[trigger] released[i] == (
                            s1.primary,
                            s1.pending[i].0,
                            s1.pending[i].1,
                        ));
                }
            }
            assert(nonempty_triples(direct + released)) by {
                assert(forall|i: int|
                    0 <= i < direct.len() ==> #[trigger] (direct + released)[i] == direct[i]);
                assert(forall|i: int|
                    direct.len() <= i < direct.len() + released.len() ==> #[trigger] (direct
                        + released)[i] == released[i - direct.len()]);
            }
        },
        Err(_) => {},
    }
}

/// A whole scan from a context whose held-back entries are sound emits only
/// triples with non-empty identifiers.
pub proof fn lemma_def_scan_nonempty(cfg: DefCfgV, st: StateV, evs: Seq<EventV>)
    requires
        pending_ids_ok(st),
    ensures
        match def_scan(cfg, st, evs) {
            Ok((_, trs)) => nonempty_triples(trs),
            Err(_) => true,
        },
    decreases evs.len(),
{
    if evs.len() > 0 {
        lemma_def_step_nonempty(cfg, st, evs.first());
        match def_step(cfg, st, evs.first()) {
            Ok((st2, emitted)) => {
                lemma_def_scan_nonempty(cfg, st2, evs.drop_first());
                match def_scan(cfg, st2, evs.drop_first()) {
                    Ok((_, rest)) => {
                        assert(nonempty_triples(emitted + rest)) by {
                            assert(forall|i: int|
                                0 <= i < emitted.len() ==> #[trigger] (emitted + rest)[i]
                                    == emitted[i]);
                            assert(forall|i: int|
                                emitted.len() <= i < emitted.len() + rest.len()
                                    ==> #[trigger] (emitted + rest)[i] == rest[i
                                    - emitted.len()]);
                        }
                    },
                    Err(_) => {},
                }
            },
            Err(_) => {},
        }
    }
}

/// No identifier is empty in a finalized record: committing everything a
/// scan emits to a table whose keys are non-empty keeps every block key and
/// every component key non-empty.
pub proof fn lemma_no_empty_identifiers(cfg: DefCfgV, evs: Seq<EventV>, t0: TableV)
    requires
        table_ids_ok(t0),
    ensures
        match def_scan(cfg, initial_state(), evs) {
            Ok((_, trs)) => table_ids_ok(fold_triples(t0, trs)),
            Err(_) => true,
        },
{
    lemma_def_scan_nonempty(cfg, initial_state(), evs);
    match def_scan(cfg, initial_state(), evs) {
        Ok((_, trs)) => {
            crate::table::lemma_fold_triples_ids_ok(t0, trs);
        },
        Err(_) => {},
    }
}

/// While an identifier-shadowing container is open, no event except closing
/// that container touches the identifier context: nothing inside a
/// component-requirement or by-product list can leak into the active block
/// identifier.
pub proof fn lemma_shadow_preserves_identifiers(cfg: DefCfgV, st: StateV, ev: EventV)
    requires
        st.shadow is Some,
    ensures
        match def_step(cfg, st, ev) {
            Ok((s2, _)) => s2.primary == st.primary && s2.fallback == st.fallback
                && s2.in_primary == st.in_primary && s2.in_fallback == st.in_fallback,
            Err(_) => true,
        },
{
}

/// A block whose primary identifier turns out empty takes the fallback
/// identifier: closing an empty primary-identifier element substitutes the
/// captured fallback text, and a self-closing primary-identifier element
/// (no text at all) does the same.
pub proof fn lemma_empty_primary_takes_fallback(cfg: DefCfgV, st: StateV, attrs: Seq<Seq<char>>)
    requires
        st.shadow is None,
    ensures
        st.primary.len() == 0 ==> (def_step(cfg, st, EventV::Close { name: cfg.primary })
            matches Ok(p) && p.0.primary == st.fallback),
        def_step(cfg, st, EventV::SelfClose { name: cfg.primary, attrs })
            matches Ok(p) && p.0.primary == st.fallback,
{
}

impl ExtractState {
    /// The context before any event.
    pub fn new() -> (st: Self)
        ensures
            st@ == initial_state(),
    {
        let st = ExtractState {
            shadow: None,
            in_primary: false,
            in_fallback: false,
            primary: String::new(),
            fallback: String::new(),
            pending: Vec::new(),
        };
        proof {
            assert(st@.pending =~= Seq::<(Seq<char>, u64)>::empty());
            assert(st@ == initial_state());
        }
        st
    }
}

impl DefinitionConfig {
    /// The element names of the game's block-definition schema: `SubtypeId`
    /// as the primary identifier, `TypeId` as the fallback, `Components` as
    /// the requirement list, and `ProducedGases` as a further
    /// identifier-shadowing container.
    pub fn space_engineers() -> (cfg: Self)
        ensures
            cfg@.primary == "SubtypeId"@,
            cfg@.fallback == "TypeId"@,
            cfg@.component_list == "Components"@,
            cfg@.shadows == seq!["ProducedGases"@],
    {
        let mut shadows: Vec<String> = Vec::new();
        shadows.push("ProducedGases".to_owned());
        let cfg = DefinitionConfig {
            primary_tag: "SubtypeId".to_owned(),
            fallback_tag: "TypeId".to_owned(),
            component_list_tag: "Components".to_owned(),
            shadow_tags: shadows,
        };
        proof {
            assert(cfg@.shadows =~= seq!["ProducedGases"@]);
        }
        cfg
    }
}

/// Whether `name` opens an identifier-shadowing container.
fn is_shadow_exec(cfg: &DefinitionConfig, name: &String) -> (r: bool)
    ensures
        r == is_shadow(cfg@, name@),
{
    if *name == cfg.component_list_tag {
        return true;
    }
    let n = cfg.shadow_tags.len();
    let mut i: usize = 0;
    while i < n
        invariant
            n == cfg.shadow_tags.len(),
            i <= n,
            forall|j: int| 0 <= j < i ==> cfg.shadow_tags.deep_view()[j] != name@,
        decreases n - i,
    {
        if cfg.shadow_tags[i] == *name {
            proof {
                assert(cfg.shadow_tags.deep_view()[i as int] == name@);
            }
            return true;
        }
        i = i + 1;
    }
    proof {
        assert(!cfg@.shadows.contains(name@)) by {
            assert(forall|j: int|
                0 <= j < cfg@.shadows.len() ==> #[trigger] cfg@.shadows[j] != name@);
        }
    }
    false
}

/// Release held-back requirement entries into `out` once the block
/// identifier is active, exactly as [`flush_pending`] prescribes.
fn flush_pending_exec(st: &mut ExtractState, out: &mut Vec<(String, String, u64)>)
    ensures
        final(st)@ == flush_pending(old(st)@).0,
        final(out).deep_view() == old(out).deep_view() + flush_pending(old(st)@).1,
{
    if !st.primary.as_str().is_empty() && st.pending.len() > 0 {
        let ghost released = flush_pending(st@).1;
        let n = st.pending.len();
        let mut k: usize = 0;
        proof {
            assert(out.deep_view() =~= old(out).deep_view() + released.take(0));
        }
        while k < n
            invariant
                n == st.pending@.len(),
                k <= n,
                st == old(st),
                released == flush_pending(old(st)@).1,
                released.len() == n,
                out.deep_view() == old(out).deep_view() + released.take(k as int),
            decreases n - k,
        {
            let component = st.pending[k].0.clone();
            let quantity = st.pending[k].1;
            let ghost prev_raw = out@;
            let ghost prev = out.deep_view();
            let pushed = (st.primary.clone(), component, quantity);
            let ghost pushed_v = pushed;
            out.push(pushed);
            proof {
                assert(st@.pending[k as int] == (st.pending@[k as int].0@, st.pending@[
                    k as int
                ].1));
                assert(released[k as int] == (st@.primary, st@.pending[k as int].0, st@.pending[
                    k as int
                ].1));
                assert forall|j: int| 0 <= j < prev.len() implies out.deep_view()[j] == prev[
                    j
                ] by {
                    assert(out@[j] == prev_raw[j]);
                    assert(prev[j] == prev_raw[j].deep_view());
                }
                assert(out@.len() == prev_raw.len() + 1);
                assert(out@[prev_raw.len() as int] == pushed_v);
                assert(pushed_v.deep_view() == released[k as int]);
                assert(out.deep_view()[prev.len() as int] == out@[prev.len() as int].deep_view());
                assert(out.deep_view().len() == prev.len() + 1);
                assert(out.deep_view() =~= prev.push(released[k as int]));
                assert(old(out).deep_view() + released.take(k + 1) =~= (old(out).deep_view()
                    + released.take(k as int)).push(released[k as int]));
                assert(out.deep_view() =~= old(out).deep_view() + released.take(k + 1));
            }
            k = k + 1;
        }
        st.pending = Vec::new();
        proof {
            assert(released.take(n as int) =~= released);
            assert(st@.pending =~= Seq::<(Seq<char>, u64)>::empty());
            assert(st@ == flush_pending(old(st)@).0);
        }
    } else {
        proof {
            assert(out.deep_view() =~= old(out).deep_view() + flush_pending(old(st)@).1);
        }
    }
}

/// Apply one event to the scanner context, appending the requirement triples
/// it emits to `out`. Behaves exactly as [`def_step`] prescribes; on an error
/// nothing is appended.
fn apply_def_event(
    cfg: &DefinitionConfig,
    st: &mut ExtractState,
    ev: &XmlEvent,
    out: &mut Vec<(String, String, u64)>,
) -> (r: Result<(), ScanError>)
    ensures
        match def_step(cfg@, old(st)@, ev@) {
            Ok((s2, trs)) => r is Ok && final(st)@ == s2 && final(out).deep_view() == old(
                out,
            ).deep_view() + trs,
            Err(e) => r == Err::<(), ScanError>(e) && final(out).deep_view() == old(
                out,
            ).deep_view(),
        },
{
    match ev {
        XmlEvent::Open { name, attrs } => {
            if st.shadow.is_none() {
                if is_shadow_exec(cfg, name) {
                    st.shadow = Some(name.clone());
                } else if *name == cfg.primary_tag {
                    st.in_primary = true;
                    st.primary = String::new();
                } else if *name == cfg.fallback_tag {
                    st.in_fallback = true;
                    st.primary = String::new();
                }
            }
            proof {
                assert(st@ == def_step_base(cfg@, old(st)@, ev@)->Ok_0.0);
            }
            flush_pending_exec(st, out);
            proof {
                lemma_step_concat(cfg@, old(st)@, ev@, old(out).deep_view());
            }
            Ok(())
        },
        XmlEvent::Close { name } => {
            match &st.shadow {
                Some(open_tag) => {
                    if *name == *open_tag {
                        st.shadow = None;
                    }
                },
                None => {
                    if *name == cfg.primary_tag {
                        st.in_primary = false;
                        if st.primary.as_str().is_empty() {
                            st.primary = st.fallback.clone();
                        }
                    } else if *name == cfg.fallback_tag {
                        st.in_fallback = false;
                    }
                },
            }
            proof {
                assert(st@ == def_step_base(cfg@, old(st)@, ev@)->Ok_0.0);
            }
            flush_pending_exec(st, out);
            proof {
                lemma_step_concat(cfg@, old(st)@, ev@, old(out).deep_view());
            }
            Ok(())
        },
        XmlEvent::Text { content } => {
            if st.shadow.is_none() {
                if st.in_primary {
                    st.primary = content.clone();
                }
                if st.in_fallback {
                    st.fallback = content.clone();
                }
            }
            proof {
                assert(st@ == def_step_base(cfg@, old(st)@, ev@)->Ok_0.0);
            }
            flush_pending_exec(st, out);
            proof {
                lemma_step_concat(cfg@, old(st)@, ev@, old(out).deep_view());
            }
            Ok(())
        },
        XmlEvent::SelfClose { name, attrs } => {
            let in_component_list = match &st.shadow {
                Some(open_tag) => *open_tag == cfg.component_list_tag,
                None => false,
            };
            if in_component_list {
                proof {
                    assert(attrs.deep_view().len() == attrs@.len());
                }
                if attrs.len() < 2 {
                    return Err(ScanError::MissingAttribute);
                }
                proof {
                    assert(attrs.deep_view()[0] == attrs@[0]@);
                    assert(attrs.deep_view()[1] == attrs@[1]@);
                }
                if attrs[0].as_str().is_empty() {
                    return Err(ScanError::MissingAttribute);
                }
                match parse_quantity(attrs[1].as_str()) {
                    Some(quantity) => {
                        if st.primary.as_str().is_empty() {
                            let ghost pending_before = st@.pending;
                            st.pending.push((attrs[0].clone(), quantity));
                            proof {
                                assert(st@.pending =~= pending_before.push((
                                    attrs@[0]@,
                                    quantity,
                                )));
                                assert(st@ == def_step_base(cfg@, old(st)@, ev@)->Ok_0.0);
                            }
                        } else {
                            out.push((st.primary.clone(), attrs[0].clone(), quantity));
                            proof {
                                assert(out.deep_view() =~= old(out).deep_view() + seq![
                                    (old(st)@.primary, attrs@[0]@, quantity),
                                ]);
                                assert(st@ == def_step_base(cfg@, old(st)@, ev@)->Ok_0.0);
                            }
                        }
                        flush_pending_exec(st, out);
                        proof {
                            lemma_step_concat(cfg@, old(st)@, ev@, old(out).deep_view());
                        }
                        Ok(())
                    },
                    None => Err(ScanError::InvalidQuantity),
                }
            } else {
                if st.shadow.is_none() && *name == cfg.primary_tag {
                    st.primary = st.fallback.clone();
                }
                proof {
                    assert(st@ == def_step_base(cfg@, old(st)@, ev@)->Ok_0.0);
                }
                flush_pending_exec(st, out);
                proof {
                    lemma_step_concat(cfg@, old(st)@, ev@, old(out).deep_view());
                }
                Ok(())
            }
        },
        XmlEvent::Other => {
            proof {
                assert(st@ == def_step_base(cfg@, old(st)@, ev@)->Ok_0.0);
            }
            flush_pending_exec(st, out);
            proof {
                lemma_step_concat(cfg@, old(st)@, ev@, old(out).deep_view());
            }
            Ok(())
        },
    }
}

/// What one event appends overall: the direct triples, then the released
/// ones; concatenation onto the output is associative.
proof fn lemma_step_concat(cfg: DefCfgV, st: StateV, ev: EventV, prefix: Seq<TripleV>)
    requires
        def_step_base(cfg, st, ev) is Ok,
    ensures
        def_step(cfg, st, ev) matches Ok((s2, trs)) && s2 == flush_pending(
            def_step_base(cfg, st, ev)->Ok_0.0,
        ).0 && prefix + trs == (prefix + def_step_base(cfg, st, ev)->Ok_0.1) + flush_pending(
            def_step_base(cfg, st, ev)->Ok_0.0,
        ).1,
{
    let (s1, direct) = def_step_base(cfg, st, ev)->Ok_0;
    let (s2, released) = flush_pending(s1);
    assert(prefix + (direct + released) =~= (prefix + direct) + released);
}

/// The whole scan of a definition document, as a fold of [`def_step`] over
/// the event sequence: the final state and every emitted triple in document
/// order, or the first error.
pub open spec fn def_scan(cfg: DefCfgV, st: StateV, evs: Seq<EventV>) -> Result<
    (StateV, Seq<TripleV>),
    ScanError,
>
    decreases evs.len(),
{
    if evs.len() == 0 {
        Ok((st, Seq::empty()))
    } else {
        match def_step(cfg, st, evs.first()) {
            Ok((st2, emitted)) => match def_scan(cfg, st2, evs.drop_first()) {
                Ok((st3, rest)) => Ok((st3, emitted + rest)),
                Err(e) => Err(e),
            },
            Err(e) => Err(e),
        }
    }
}

/// The triples a definition document's events denote, committed to `table`.
///
/// Exactly what [`def_scan`] prescribes from the initial scanner context:
/// success if and only if the spec-level scan succeeds, in which case the
/// table accumulates precisely the emitted triples (in document order, though
/// by the table's order-independence any order would end the same); on an
/// error, the same error and the table untouched — no partial result.
pub fn extract_definitions(
    events: &Vec<XmlEvent>,
    cfg: &DefinitionConfig,
    table: &mut RecipeTable,
) -> (r: Result<(), ScanError>)
    requires
        old(table).wf(),
    ensures
        final(table).wf(),
        match def_scan(cfg@, initial_state(), crate::events::events_view(events@)) {
            Ok((_, trs)) => r is Ok && final(table)@ == fold_triples(old(table)@, trs),
            Err(e) => r == Err::<(), ScanError>(e) && final(table)@ == old(table)@,
        },
{
    let ghost evs = crate::events::events_view(events@);
    let mut st = ExtractState::new();
    let mut triples: Vec<(String, String, u64)> = Vec::new();
    let n = events.len();
    let mut i: usize = 0;
    proof {
        assert(evs.skip(0) =~= evs);
        assert(triples.deep_view() =~= Seq::<TripleV>::empty());
        match def_scan(cfg@, initial_state(), evs) {
            Ok((_, rest)) => {
                assert(triples.deep_view() + rest =~= rest);
            },
            Err(_) => {},
        }
    }
    while i < n
        invariant
            n == events@.len(),
            i <= n,
            evs == crate::events::events_view(events@),
            table == old(table),
            old(table).wf(),
            def_scan(cfg@, initial_state(), evs) == (match def_scan(
                cfg@,
                st@,
                evs.skip(i as int),
            ) {
                Ok((s, rest)) => Ok::<(StateV, Seq<TripleV>), ScanError>(
                    (s, triples.deep_view() + rest),
                ),
                Err(e) => Err(e),
            }),
        decreases n - i,
    {
        let ev = &events[i];
        proof {
            assert(evs[i as int] == ev@);
            assert(evs.skip(i as int).first() == ev@);
            assert(evs.skip(i as int).drop_first() =~= evs.skip(i + 1));
        }
        let ghost pre_st = st@;
        let ghost pre_triples = triples.deep_view();
        match apply_def_event(cfg, &mut st, ev, &mut triples) {
            Ok(()) => {
                proof {
                    let emitted = def_step(cfg@, pre_st, ev@)->Ok_0.1;
                    match def_scan(cfg@, st@, evs.skip(i + 1)) {
                        Ok((_, rest)) => {
                            assert(pre_triples + (emitted + rest) =~= triples.deep_view() + rest);
                        },
                        Err(_) => {},
                    }
                }
            },
            Err(e) => {
                proof {
                    assert(def_scan(cfg@, pre_st, evs.skip(i as int)) == Err::<
                        (StateV, Seq<TripleV>),
                        ScanError,
                    >(e));
                }
                return Err(e);
            },
        }
        i = i + 1;
    }
    proof {
        assert(evs.skip(n as int) =~= Seq::<EventV>::empty());
        assert(triples.deep_view() + Seq::<TripleV>::empty() =~= triples.deep_view());
    }
    let ghost trs = triples.deep_view();
    let ghost t0 = table@;
    let m = triples.len();
    let mut k: usize = 0;
    proof {
        reveal_with_fuel(Seq::fold_left, 2);
        assert(trs.take(0) =~= Seq::<TripleV>::empty());
    }
    while k < m
        invariant
            m == triples@.len(),
            k <= m,
            trs == triples.deep_view(),
            table.wf(),
            t0 == old(table)@,
            table@ == fold_triples(t0, trs.take(k as int)),
        decreases m - k,
    {
        let entry = &triples[k];
        proof {
            assert(trs[k as int] == (entry.0@, entry.1@, entry.2));
        }
        table.add_component(&entry.0, &entry.1, entry.2);
        proof {
            reveal_with_fuel(Seq::fold_left, 2);
            assert(trs.take(k + 1).drop_last() =~= trs.take(k as int));
            assert(trs.take(k + 1).last() == trs[k as int]);
        }
        k = k + 1;
    }
    proof {
        assert(trs.take(m as int) =~= trs);
    }
    Ok(())
}

/// Scan one definition document and commit every recipe it declares.
///
/// Exactly the composition of the named parse and [`def_scan`]: the document
/// is reduced to the events [`doc_scan`] assigns to it (failing with
/// `MalformedXml` and an untouched table on unreadable input), and those
/// events are interpreted by [`def_scan`] from the initial context. On
/// success the table has accumulated precisely the triples the document
/// declares, once each; on an extraction error, that error and the table
/// untouched.
pub fn load_recipes(doc: &str, cfg: &DefinitionConfig, table: &mut RecipeTable) -> (r: Result<
    (),
    ScanError,
>)
    requires
        old(table).wf(),
    ensures
        final(table).wf(),
        match r {
            Ok(()) => {
                &&& doc_scan(doc@).1 is None
                &&& def_scan(cfg@, initial_state(), doc_scan(doc@).0) matches Ok(p)
                &&& final(table)@ == fold_triples(old(table)@, def_scan(
                    cfg@,
                    initial_state(),
                    doc_scan(doc@).0,
                )->Ok_0.1)
            },
            Err(e) => {
                &&& final(table)@ == old(table)@
                &&& if doc_scan(doc@).1 is Some {
                    e == (ScanError::MalformedXml { position: doc_scan(doc@).1->0 })
                } else {
                    def_scan(cfg@, initial_state(), doc_scan(doc@).0) == Err::<
                        (StateV, Seq<TripleV>),
                        ScanError,
                    >(e)
                }
            },
        },
{
    let events = match scan_document(doc) {
        Ok(events) => events,
        Err(e) => {
            return Err(e);
        },
    };
    extract_definitions(&events, cfg, table)
}

} // verus!
