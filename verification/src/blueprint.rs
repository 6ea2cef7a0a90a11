//! The blueprint block extractor: enumerate placed block instances from the
//! blueprint document's event stream.
//!
//! Primary path: text inside the per-instance type-name element is a
//! candidate identifier. Secondary path: a block-instance container element
//! whose type-discriminator attribute matches a configured special case
//! synthesizes a fixed identifier directly (for block families whose type
//! name is not distinguishing). Candidates from the primary path are
//! normalized through a configurable alias table before classification.
//! Classification against the recipe table is read-only: a hit appends the
//! identifier to the instance sequence and counts it, a miss lands in a
//! deduplicated set of unmatched identifiers. A miss is expected data, never
//! an error.

use vstd::prelude::*;

use crate::events::{events_view, EventV, XmlEvent};
use crate::error::ScanError;
use crate::table::{qmap_record, QMapV, QuantityMap, RecipeTable, TableV};
use crate::xml::{doc_scan, scan_document};

verus! {

/// The first replacement an association list offers for `key`, if any.
pub open spec fn assoc_first(pairs: Seq<(Seq<char>, Seq<char>)>, key: Seq<char>) -> Option<
    Seq<char>,
>
    decreases pairs.len(),
{
    if pairs.len() == 0 {
        None
    } else if pairs.first().0 == key {
        Some(pairs.first().1)
    } else {
        assoc_first(pairs.drop_first(), key)
    }
}

/// Alias normalization: the canonical form of a raw candidate identifier —
/// its configured replacement if the alias table knows one, else the raw
/// identifier itself.
pub open spec fn normalize(aliases: Seq<(Seq<char>, Seq<char>)>, raw: Seq<char>) -> Seq<char> {
    match assoc_first(aliases, raw) {
        Some(canonical) => canonical,
        None => raw,
    }
}

/// Which elements and attribute values of a blueprint document mean what.
pub struct BlueprintConfig {
    /// Element whose text names a placed block instance's type.
    pub type_name_tag: String,
    /// The block-instance container element carrying a type-discriminator
    /// attribute as its first attribute.
    pub instance_tag: String,
    /// Special-cased discriminator values: attribute value to the fixed
    /// identifier synthesized for that block family.
    pub discriminators: Vec<(String, String)>,
    /// The alias table patching naming mismatches between the two data
    /// sources: raw identifier to canonical identifier. Data, not code.
    pub aliases: Vec<(String, String)>,
}

/// The mathematical value of a [`BlueprintConfig`].
pub struct BpCfgV {
    pub type_tag: Seq<char>,
    pub instance: Seq<char>,
    pub discriminators: Seq<(Seq<char>, Seq<char>)>,
    pub aliases: Seq<(Seq<char>, Seq<char>)>,
}

impl View for BlueprintConfig {
    type V = BpCfgV;

    open spec fn view(&self) -> BpCfgV {
        BpCfgV {
            type_tag: self.type_name_tag@,
            instance: self.instance_tag@,
            discriminators: self.discriminators.deep_view(),
            aliases: self.aliases.deep_view(),
        }
    }
}

impl BlueprintConfig {
    /// The element names, discriminator special cases and alias table for the
    /// game's blueprint schema.
    pub fn space_engineers() -> (cfg: Self)
        ensures
            cfg@.type_tag == "SubtypeName"@,
            cfg@.instance == "MyObjectBuilder_CubeBlock"@,
            cfg@.discriminators == seq![("MyObjectBuilder_OxygenGenerator"@, "OxygenGenerator"@)],
            cfg@.aliases == seq![
                ("WideLargeCameraBlock"@, "LargeCameraBlock"@),
                ("LargeBlockLargeDrill"@, "LargeBlockDrill"@),
            ],
    {
        let mut discriminators: Vec<(String, String)> = Vec::new();
        discriminators.push(
            ("MyObjectBuilder_OxygenGenerator".to_owned(), "OxygenGenerator".to_owned()),
        );
        let mut aliases: Vec<(String, String)> = Vec::new();
        aliases.push(("WideLargeCameraBlock".to_owned(), "LargeCameraBlock".to_owned()));
        aliases.push(("LargeBlockLargeDrill".to_owned(), "LargeBlockDrill".to_owned()));
        let cfg = BlueprintConfig {
            type_name_tag: "SubtypeName".to_owned(),
            instance_tag: "MyObjectBuilder_CubeBlock".to_owned(),
            discriminators,
            aliases,
        };
        proof {
            assert(cfg@.discriminators =~= seq![
                ("MyObjectBuilder_OxygenGenerator"@, "OxygenGenerator"@),
            ]);
            assert(cfg@.aliases =~= seq![
                ("WideLargeCameraBlock"@, "LargeCameraBlock"@),
                ("LargeBlockLargeDrill"@, "LargeBlockDrill"@),
            ]);
        }
        cfg
    }
}

/// A deduplicated set of identifiers.
pub struct IdentifierSet {
    items: Vec<String>,
}

impl View for IdentifierSet {
    type V = Set<Seq<char>>;

    closed spec fn view(&self) -> Set<Seq<char>> {
        self.seq_view().to_set()
    }
}

impl IdentifierSet {
    /// The distinct members, in first-seen order.
    pub closed spec fn seq_view(&self) -> Seq<Seq<char>> {
        self.items@.map_values(|s: String| s@)
    }

    /// Well-formed: no member occurs twice.
    pub closed spec fn wf(&self) -> bool {
        forall|i: int, j: int|
            0 <= i < j < self.seq_view().len() ==> self.seq_view()[i] != self.seq_view()[j]
    }

    /// An empty set.
    pub fn new() -> (r: Self)
        ensures
            r.wf(),
            r@ == Set::<Seq<char>>::empty(),
            r.seq_view() == Seq::<Seq<char>>::empty(),
    {
        let r = IdentifierSet { items: Vec::new() };
        proof {
            assert(r.seq_view() =~= Seq::<Seq<char>>::empty());
            assert(r.seq_view().to_set() =~= Set::<Seq<char>>::empty());
        }
        r
    }

    /// How many distinct members the set holds.
    pub fn len(&self) -> (n: usize)
        ensures
            n == self.seq_view().len(),
    {
        self.items.len()
    }

    /// The member at position `i`, in first-seen order.
    pub fn member_at(&self, i: usize) -> (r: &String)
        requires
            i < self.seq_view().len(),
        ensures
            r@ == self.seq_view()[i as int],
            self@.contains(r@),
    {
        proof {
            assert(self.seq_view().contains(self.seq_view()[i as int]));
        }
        &self.items[i]
    }

    /// Whether `id` is a member.
    pub fn contains(&self, id: &String) -> (r: bool)
        ensures
            r == self@.contains(id@),
    {
        let n = self.items.len();
        let mut i: usize = 0;
        while i < n
            invariant
                n == self.items.len(),
                i <= n,
                forall|j: int| 0 <= j < i ==> self.seq_view()[j] != id@,
            decreases n - i,
        {
            if self.items[i] == *id {
                proof {
                    assert(self.seq_view()[i as int] == id@);
                    assert(self.seq_view().contains(id@));
                }
                return true;
            }
            i = i + 1;
        }
        proof {
            if self.seq_view().contains(id@) {
                let j = choose|j: int|
                    0 <= j < self.seq_view().len() && self.seq_view()[j] == id@;
            }
        }
        false
    }

    /// Insert `id`; a present member stays single.
    pub fn insert(&mut self, id: &String)
        requires
            old(self).wf(),
        ensures
            final(self).wf(),
            final(self)@ == old(self)@.insert(id@),
    {
        if self.contains(id) {
            proof {
                assert(self@ =~= old(self)@.insert(id@));
            }
            return;
        }
        let ghost s = self.seq_view();
        self.items.push(id.clone());
        proof {
            assert(self.seq_view() =~= s.push(id@));
            assert(!s.contains(id@)) by {
                if s.contains(id@) {
                    let j = choose|j: int| 0 <= j < s.len() && s[j] == id@;
                    assert(s.to_set().contains(id@));
                }
            }
            assert forall|x: Seq<char>| self.seq_view().contains(x) implies old(
                self,
            )@.insert(id@).contains(x) by {
                let j = choose|j: int|
                    0 <= j < self.seq_view().len() && self.seq_view()[j] == x;
                if j < s.len() {
                    assert(s[j] == x);
                }
            }
            assert forall|x: Seq<char>| old(self)@.insert(id@).contains(x) implies self
                .seq_view()
                .contains(x) by {
                if x == id@ {
                    assert(self.seq_view()[s.len() as int] == id@);
                } else {
                    let j = choose|j: int| 0 <= j < s.len() && s[j] == x;
                    assert(self.seq_view()[j] == x);
                }
            }
            assert(self@ =~= old(self)@.insert(id@));
        }
    }
}

/// What the blueprint scan has gathered: the tag context, the matched
/// instance sequence, per-identifier hit counts, and the set of distinct
/// unmatched identifiers.
pub struct BpScanV {
    pub in_type: bool,
    pub instances: Seq<Seq<char>>,
    pub hits: QMapV,
    pub missed: Set<Seq<char>>,
}

/// The scan before any event: nothing open, nothing gathered.
pub open spec fn bp_initial() -> BpScanV {
    BpScanV {
        in_type: false,
        instances: Seq::empty(),
        hits: Map::empty(),
        missed: Set::empty(),
    }
}

/// Classify one candidate identifier against the table, read-only: a hit
/// joins the instance sequence and its hit count; a miss joins the
/// deduplicated unmatched set. Neither path is an error.
pub open spec fn classify(table: TableV, st: BpScanV, id: Seq<char>) -> BpScanV {
    if table.contains_key(id) {
        BpScanV { instances: st.instances.push(id), hits: qmap_record(st.hits, id, 1), ..st }
    } else {
        BpScanV { missed: st.missed.insert(id), ..st }
    }
}

/// The transition rules of the blueprint block extractor.
pub open spec fn bp_step(cfg: BpCfgV, table: TableV, st: BpScanV, ev: EventV) -> BpScanV {
    match ev {
        EventV::Open { name, attrs } => {
            if name == cfg.type_tag {
                BpScanV { in_type: true, ..st }
            } else if name == cfg.instance && attrs.len() > 0 {
                match assoc_first(cfg.discriminators, attrs[0]) {
                    Some(id) => classify(table, st, id),
                    None => st,
                }
            } else {
                st
            }
        },
        EventV::Close { name } => {
            if name == cfg.type_tag {
                BpScanV { in_type: false, ..st }
            } else {
                st
            }
        },
        EventV::Text { content } => {
            if st.in_type {
                classify(table, st, normalize(cfg.aliases, content))
            } else {
                st
            }
        },
        EventV::SelfClose { .. } => st,
        EventV::Other => st,
    }
}

/// The whole scan of a blueprint document, as a fold of [`bp_step`].
pub open spec fn bp_scan(cfg: BpCfgV, table: TableV, st: BpScanV, evs: Seq<EventV>) -> BpScanV
    decreases evs.len(),
{
    if evs.len() == 0 {
        st
    } else {
        bp_scan(cfg, table, bp_step(cfg, table, st, evs.first()), evs.drop_first())
    }
}

/// Every instance the scan gathers has a recipe in the table: only matched
/// identifiers ever join the instance sequence.
pub proof fn lemma_bp_scan_instances_matched(
    cfg: BpCfgV,
    table: TableV,
    st: BpScanV,
    evs: Seq<EventV>,
)
    requires
        forall|j: int|
            0 <= j < st.instances.len() ==> table.contains_key(#[trigger] st.instances[j]),
    ensures
        forall|j: int|
            0 <= j < bp_scan(cfg, table, st, evs).instances.len() ==> table.contains_key(
                #[trigger] bp_scan(cfg, table, st, evs).instances[j],
            ),
    decreases evs.len(),
{
    if evs.len() > 0 {
        let st2 = bp_step(cfg, table, st, evs.first());
        assert forall|j: int| 0 <= j < st2.instances.len() implies table.contains_key(
            #[trigger] st2.instances[j],
        ) by {
            if j < st.instances.len() {
                assert(st2.instances[j] == st.instances[j]);
            } else {
                assert(st2.instances.len() == st.instances.len() + 1);
                assert(st2.instances[j] == st2.instances.last());
            }
        }
        lemma_bp_scan_instances_matched(cfg, table, st2, evs.drop_first());
        assert(bp_scan(cfg, table, st, evs) == bp_scan(cfg, table, st2, evs.drop_first()));
    }
}

/// Skipping entries that do not carry the key leaves the lookup unchanged.
proof fn lemma_assoc_first_skip(pairs: Seq<(Seq<char>, Seq<char>)>, key: Seq<char>, i: int)
    requires
        0 <= i <= pairs.len(),
        forall|j: int| 0 <= j < i ==> pairs[j].0 != key,
    ensures
        assoc_first(pairs, key) == assoc_first(pairs.skip(i), key),
    decreases i,
{
    if i > 0 {
        assert(pairs.first().0 != key);
        lemma_assoc_first_skip(pairs.drop_first(), key, i - 1);
        assert(pairs.drop_first().skip(i - 1) =~= pairs.skip(i));
    } else {
        assert(pairs.skip(0) =~= pairs);
    }
}

/// The first replacement the association list offers for `key`, if any.
fn assoc_lookup<'a>(pairs: &'a Vec<(String, String)>, key: &String) -> (r: Option<&'a String>)
    ensures
        match r {
            Some(v) => assoc_first(pairs.deep_view(), key@) == Some(v@),
            None => assoc_first(pairs.deep_view(), key@) is None,
        },
{
    let n = pairs.len();
    let mut i: usize = 0;
    while i < n
        invariant
            n == pairs.len(),
            i <= n,
            forall|j: int| 0 <= j < i ==> pairs.deep_view()[j].0 != key@,
        decreases n - i,
    {
        if pairs[i].0 == *key {
            proof {
                lemma_assoc_first_skip(pairs.deep_view(), key@, i as int);
                assert(pairs.deep_view().skip(i as int).first() == pairs.deep_view()[i as int]);
            }
            return Some(&pairs[i].1);
        }
        i = i + 1;
    }
    proof {
        lemma_assoc_first_skip(pairs.deep_view(), key@, n as int);
        assert(pairs.deep_view().skip(n as int) =~= Seq::<(Seq<char>, Seq<char>)>::empty());
    }
    None
}

/// Apply the alias table to a raw candidate identifier.
pub fn apply_aliases(aliases: &Vec<(String, String)>, raw: &String) -> (r: String)
    ensures
        r@ == normalize(aliases.deep_view(), raw@),
{
    match assoc_lookup(aliases, raw) {
        Some(canonical) => canonical.clone(),
        None => raw.clone(),
    }
}

/// What scanning the blueprint document produced: the matched instance
/// sequence in document order, per-identifier hit counts, and the distinct
/// unmatched identifiers. Hit counts and the missed set are reporting aids;
/// the numeric aggregation consumes only the instance sequence.
pub struct BlueprintScan {
    /// One entry per matched placed block instance.
    pub instances: Vec<String>,
    /// Occurrence counts per matched identifier.
    pub hits: QuantityMap,
    /// Distinct identifiers that no recipe was found for.
    pub missed: IdentifierSet,
}

impl BlueprintScan {
    /// The matched instance identifiers, as mathematical values.
    pub open spec fn instances_view(&self) -> Seq<Seq<char>> {
        self.instances@.map_values(|s: String| s@)
    }

    /// The number of matched instances.
    pub fn matched_count(&self) -> (n: usize)
        ensures
            n == self.instances_view().len(),
    {
        self.instances.len()
    }
}

/// Interpret a blueprint document's events, classifying every block instance
/// against the table (read-only). Behaves exactly as [`bp_scan`] prescribes
/// from the initial context; every gathered instance has a recipe.
pub fn extract_blueprint(events: &Vec<XmlEvent>, cfg: &BlueprintConfig, table: &RecipeTable) -> (r:
    BlueprintScan)
    requires
        table.wf(),
    ensures
        ({
            let out = bp_scan(cfg@, table@, bp_initial(), events_view(events@));
            &&& r.instances_view() == out.instances
            &&& r.hits@ == out.hits
            &&& r.missed@ == out.missed
        }),
        r.hits.wf(),
        r.missed.wf(),
        forall|j: int|
            0 <= j < r.instances_view().len() ==> table@.contains_key(
                #[trigger] r.instances_view()[j],
            ),
{
    let ghost evs = events_view(events@);
    let mut in_type: bool = false;
    let mut instances: Vec<String> = Vec::new();
    let mut hits = QuantityMap::new();
    let mut missed = IdentifierSet::new();
    let n = events.len();
    let mut i: usize = 0;
    proof {
        assert(instances@.map_values(|s: String| s@) =~= Seq::<Seq<char>>::empty());
        assert(evs.skip(0) =~= evs);
    }
    while i < n
        invariant
            n == events@.len(),
            i <= n,
            evs == events_view(events@),
            table.wf(),
            hits.wf(),
            missed.wf(),
            bp_scan(cfg@, table@, bp_initial(), evs) == bp_scan(
                cfg@,
                table@,
                BpScanV {
                    in_type: in_type,
                    instances: instances@.map_values(|s: String| s@),
                    hits: hits@,
                    missed: missed@,
                },
                evs.skip(i as int),
            ),
            forall|j: int|
                0 <= j < instances@.len() ==> table@.contains_key((#[trigger] instances@[j])@),
        decreases n - i,
    {
        let ev = &events[i];
        let ghost pre = BpScanV {
            in_type: in_type,
            instances: instances@.map_values(|s: String| s@),
            hits: hits@,
            missed: missed@,
        };
        proof {
            assert(evs[i as int] == ev@);
            assert(evs.skip(i as int).first() == ev@);
            assert(evs.skip(i as int).drop_first() =~= evs.skip(i + 1));
        }
        match ev {
            XmlEvent::Open { name, attrs } => {
                if *name == cfg.type_name_tag {
                    in_type = true;
                } else if *name == cfg.instance_tag && attrs.len() > 0 {
                    proof {
                        assert(attrs.deep_view()[0] == attrs@[0]@);
                    }
                    match assoc_lookup(&cfg.discriminators, &attrs[0]) {
                        Some(id) => {
                            if table.contains_block(id) {
                                hits.record(id, 1);
                                instances.push(id.clone());
                            } else {
                                missed.insert(id);
                            }
                        },
                        None => {},
                    }
                }
            },
            XmlEvent::Close { name } => {
                if *name == cfg.type_name_tag {
                    in_type = false;
                }
            },
            XmlEvent::Text { content } => {
                if in_type {
                    let id = apply_aliases(&cfg.aliases, content);
                    if table.contains_block(&id) {
                        hits.record(&id, 1);
                        instances.push(id);
                    } else {
                        missed.insert(&id);
                    }
                }
            },
            XmlEvent::SelfClose { .. } => {},
            XmlEvent::Other => {},
        }
        proof {
            let post = BpScanV {
                in_type: in_type,
                instances: instances@.map_values(|s: String| s@),
                hits: hits@,
                missed: missed@,
            };
            assert(post.instances =~= bp_step(cfg@, table@, pre, ev@).instances);
            assert(post == bp_step(cfg@, table@, pre, ev@));
        }
        i = i + 1;
    }
    proof {
        assert(evs.skip(n as int) =~= Seq::<EventV>::empty());
    }
    BlueprintScan { instances, hits, missed }
}

/// Scan the single blueprint document and classify every placed block
/// instance against the table.
///
/// Exactly the composition of the named parse and [`bp_scan`]: the document
/// is reduced to the events [`doc_scan`] assigns to it (failing with
/// `MalformedXml` on unreadable input), and those events are interpreted by
/// [`bp_scan`] from the initial context. Every instance in the result has a
/// recipe in the table; an unmatched identifier is data in the result, never
/// an error.
pub fn scan_blueprint(doc: &str, cfg: &BlueprintConfig, table: &RecipeTable) -> (r: Result<
    BlueprintScan,
    ScanError,
>)
    requires
        table.wf(),
    ensures
        match r {
            Ok(scan) => {
                &&& doc_scan(doc@).1 is None
                &&& scan.hits.wf()
                &&& scan.missed.wf()
                &&& scan.instances_view() == bp_scan(
                    cfg@,
                    table@,
                    bp_initial(),
                    doc_scan(doc@).0,
                ).instances
                &&& scan.hits@ == bp_scan(cfg@, table@, bp_initial(), doc_scan(doc@).0).hits
                &&& scan.missed@ == bp_scan(cfg@, table@, bp_initial(), doc_scan(doc@).0).missed
                &&& forall|j: int|
                    0 <= j < scan.instances_view().len() ==> table@.contains_key(
                        #[trigger] scan.instances_view()[j],
                    )
            },
            Err(e) => doc_scan(doc@).1 matches Some(position) && e == (ScanError::MalformedXml {
                position,
            }),
        },
{
    let events = match scan_document(doc) {
        Ok(events) => events,
        Err(e) => {
            return Err(e);
        },
    };
    let scan = extract_blueprint(&events, cfg, table);
    Ok(scan)
}

} // verus!
