//! The persistent store model: settings, registered sources and queued
//! telemetry records, with the transactional operations the broker relies
//! on. Identifiers are assigned by the store, strictly increasing and never
//! reused; a record always references an existing source.

use vstd::prelude::*;
use vstd::pervasive::VecAdditionalExecFns;
use vstd::string::StringExecFns;
use crate::models::{Record, RecordV, Setting, SettingV, Source, SourceV, clone_bytes, views_of};
use crate::strutil::str_eq;

verus! {

broadcast use {crate::models::lemma_views_of_push, crate::models::lemma_views_of_subrange};

/// The three tables of the store, together with the next telemetry
/// identifier to assign.
pub struct Store {
    pub settings: Vec<Setting>,
    pub sources: Vec<Source>,
    pub records: Vec<Record>,
    pub next_id: u32,
}

/// Mathematical view of the store.
#[verifier::ext_equal]
pub ghost struct StoreV {
    pub settings: Seq<SettingV>,
    pub sources: Seq<SourceV>,
    pub records: Seq<RecordV>,
    pub next_id: u32,
}

impl View for Store {
    type V = StoreV;

    open spec fn view(&self) -> StoreV {
        StoreV {
            settings: views_of(self.settings@),
            sources: views_of(self.sources@),
            records: views_of(self.records@),
            next_id: self.next_id,
        }
    }
}

/// A constraint violation reported by a store operation, mirroring the
/// constraints of the underlying schema.
#[derive(Debug)]
pub enum StoreError {
    /// A source with the same id already exists.
    DuplicateSource(String),
    /// A record refers to a source id that is not registered.
    UnknownSource(String),
}

impl StoreError {
    /// The underlying error text, as the relational engine would report it.
    pub fn message(&self) -> (r: String)
        ensures
            self matches StoreError::DuplicateSource(_) ==> r@ == "UNIQUE constraint failed: sources.src_id"@,
            self matches StoreError::UnknownSource(_) ==> r@ == "FOREIGN KEY constraint failed"@,
    {
        match self {
            StoreError::DuplicateSource(_) => String::from_str(
                "UNIQUE constraint failed: sources.src_id",
            ),
            StoreError::UnknownSource(_) => String::from_str("FOREIGN KEY constraint failed"),
        }
    }
}

impl StoreV {
    /// Whether a source with the given id is registered.
    pub open spec fn has_source(self, id: Seq<char>) -> bool {
        exists|i: int| 0 <= i < self.sources.len() && self.sources[i].src_id == id
    }

    /// Whether a setting with the given key exists.
    pub open spec fn has_setting(self, key: Seq<char>) -> bool {
        exists|i: int| 0 <= i < self.settings.len() && self.settings[i].key == key
    }

    /// Whether a record with the given id exists.
    pub open spec fn has_record(self, id: u32) -> bool {
        exists|i: int| 0 <= i < self.records.len() && self.records[i].id == id
    }

    pub open spec fn unique_setting_keys(self) -> bool {
        forall|i: int, j: int|
            0 <= i < j < self.settings.len() ==> self.settings[i].key != self.settings[j].key
    }

    pub open spec fn unique_source_ids(self) -> bool {
        forall|i: int, j: int|
            0 <= i < j < self.sources.len() ==> self.sources[i].src_id != self.sources[j].src_id
    }

    /// Record identifiers grow strictly in insertion order.
    pub open spec fn ids_increasing(self) -> bool {
        forall|i: int, j: int|
            0 <= i < j < self.records.len() ==> self.records[i].id < self.records[j].id
    }

    /// Every assigned identifier lies below the next one to assign.
    pub open spec fn ids_below_next(self) -> bool {
        forall|i: int| 0 <= i < self.records.len() ==> self.records[i].id < self.next_id
    }

    /// Referential integrity: every record points at a registered source.
    pub open spec fn records_linked(self) -> bool {
        forall|i: int| 0 <= i < self.records.len() ==> self.has_source(self.records[i].src_id)
    }

    /// Well-formedness of the store, established at creation and preserved
    /// by every operation.
    pub open spec fn wf(self) -> bool {
        &&& 1 <= self.next_id
        &&& self.unique_setting_keys()
        &&& self.unique_source_ids()
        &&& self.ids_increasing()
        &&& self.ids_below_next()
        &&& self.records_linked()
    }
}

/// The settings every fresh store is seeded with.
pub open spec fn default_settings() -> Seq<SettingV> {
    seq![
        SettingV { key: "broker_configuration"@, value: "{}"@ },
        SettingV { key: "data_flow_reconnect_delay"@, value: "10000"@ },
        SettingV { key: "data_sending_delay"@, value: "1000"@ },
        SettingV { key: "modified_ticks"@, value: "0"@ },
        SettingV { key: "description"@, value: "Embedded broker"@ },
        SettingV { key: "max_count_data_rows"@, value: "1000000"@ },
        SettingV { key: "clear_data_delay"@, value: "3600"@ },
        SettingV { key: "packet_size"@, value: "1000"@ },
        SettingV { key: "video_segments_expiration"@, value: "72"@ },
    ]
}

fn push_setting(settings: &mut Vec<Setting>, key: &str, value: &str)
    ensures
        views_of(final(settings)@) =~= views_of(old(settings)@).push(
            SettingV { key: key@, value: value@ },
        ),
{
    settings.push(Setting { key: String::from_str(key), value: String::from_str(value) });
}

impl Store {
    /// A fresh store: the default settings, no sources, no records, and
    /// identifiers starting at one.
    pub fn new() -> (r: Store)
        ensures
            r@.settings == default_settings(),
            r@.sources == Seq::<SourceV>::empty(),
            r@.records == Seq::<RecordV>::empty(),
            r@.next_id == 1,
            r@.wf(),
    {
        let mut settings: Vec<Setting> = Vec::new();
        push_setting(&mut settings, "broker_configuration", "{}");
        push_setting(&mut settings, "data_flow_reconnect_delay", "10000");
        push_setting(&mut settings, "data_sending_delay", "1000");
        push_setting(&mut settings, "modified_ticks", "0");
        push_setting(&mut settings, "description", "Embedded broker");
        push_setting(&mut settings, "max_count_data_rows", "1000000");
        push_setting(&mut settings, "clear_data_delay", "3600");
        push_setting(&mut settings, "packet_size", "1000");
        push_setting(&mut settings, "video_segments_expiration", "72");
        let r = Store { settings, sources: Vec::new(), records: Vec::new(), next_id: 1 };
        proof {
            assert(r@.settings =~= default_settings());
            assert(r@.sources =~= Seq::<SourceV>::empty());
            assert(r@.records =~= Seq::<RecordV>::empty());
            lemma_default_keys_unique();
        }
        r
    }
}

/// The nine default keys are pairwise distinct.
proof fn lemma_default_keys_unique()
    ensures
        forall|i: int, j: int|
            0 <= i < j < default_settings().len() ==> default_settings()[i].key
                != default_settings()[j].key,
{
    reveal_strlit("broker_configuration");
    reveal_strlit("data_flow_reconnect_delay");
    reveal_strlit("data_sending_delay");
    reveal_strlit("modified_ticks");
    reveal_strlit("description");
    reveal_strlit("max_count_data_rows");
    reveal_strlit("clear_data_delay");
    reveal_strlit("packet_size");
    reveal_strlit("video_segments_expiration");
    assert forall|i: int, j: int|
        0 <= i < j < default_settings().len() implies default_settings()[i].key
        != default_settings()[j].key by {
        let a = default_settings()[i].key;
        let b = default_settings()[j].key;
        if a.len() == b.len() {
            assert(a[0] != b[0] || a[5] != b[5]);
        }
    }
}

/// Finds the position of a source by its id.
fn find_source(s: &Store, name: &str) -> (r: Option<usize>)
    ensures
        r matches Some(i) ==> i < s@.sources.len() && s@.sources[i as int].src_id == name@,
        r is None <==> !s@.has_source(name@),
{
    let mut i: usize = 0;
    while i < s.sources.len()
        invariant
            i <= s@.sources.len(),
            s@.sources.len() == s.sources@.len(),
            forall|j: int| 0 <= j < i ==> s@.sources[j].src_id != name@,
        decreases s@.sources.len() - i,
    {
        if str_eq(s.sources[i].src_id.as_str(), name) {
            return Some(i);
        }
        i = i + 1;
    }
    None
}

/// Gets a setting value by its key.
pub fn get_setting_by_key(s: &Store, key: &str) -> (r: Option<String>)
    ensures
        r is Some <==> s@.has_setting(key@),
        r matches Some(v) ==> exists|i: int|
            0 <= i < s@.settings.len() && s@.settings[i].key == key@ && s@.settings[i].value
                == v@,
{
    let mut i: usize = 0;
    while i < s.settings.len()
        invariant
            i <= s@.settings.len(),
            s@.settings.len() == s.settings@.len(),
            forall|j: int| 0 <= j < i ==> s@.settings[j].key != key@,
        decreases s@.settings.len() - i,
    {
        if str_eq(s.settings[i].key.as_str(), key) {
            proof {
                assert(s@.settings[i as int] == s.settings@[i as int]@);
            }
            return Some(s.settings[i].value.clone());
        }
        i = i + 1;
    }
    None
}

/// Gets every settings row.
pub fn get_all_setting(s: &Store) -> (r: Vec<Setting>)
    ensures
        views_of(r@) == s@.settings,
{
    let mut r: Vec<Setting> = Vec::new();
    let mut i: usize = 0;
    while i < s.settings.len()
        invariant
            i <= s@.settings.len(),
            s@.settings.len() == s.settings@.len(),
            r@.len() == i,
            forall|j: int| 0 <= j < i ==> r@[j]@ == s@.settings[j],
        decreases s@.settings.len() - i,
    {
        r.push(s.settings[i].clone());
        i = i + 1;
    }
    proof {
        assert(views_of(r@) =~= s@.settings);
    }
    r
}

/// Gets every registered source, in insertion order.
pub fn get_all_sources(s: &Store) -> (r: Vec<Source>)
    ensures
        views_of(r@) == s@.sources,
{
    let mut r: Vec<Source> = Vec::new();
    let mut i: usize = 0;
    while i < s.sources.len()
        invariant
            i <= s@.sources.len(),
            s@.sources.len() == s.sources@.len(),
            r@.len() == i,
            forall|j: int| 0 <= j < i ==> r@[j]@ == s@.sources[j],
        decreases s@.sources.len() - i,
    {
        r.push(s.sources[i].clone());
        i = i + 1;
    }
    proof {
        assert(views_of(r@) =~= s@.sources);
    }
    r
}

/// Gets a source by its id.
pub fn get_source_by_name(s: &Store, name: &str) -> (r: Option<Source>)
    ensures
        r is Some <==> s@.has_source(name@),
        r matches Some(src) ==> exists|i: int|
            0 <= i < s@.sources.len() && s@.sources[i] == src@ && src@.src_id == name@,
{
    match find_source(s, name) {
        Some(i) => Some(s.sources[i].clone()),
        None => None,
    }
}

/// Registers a new source; a second source with the same id is refused.
pub fn add_source(s: &mut Store, source: &Source) -> (r: Result<(), StoreError>)
    requires
        old(s)@.wf(),
    ensures
        final(s)@.wf(),
        r is Ok <==> !old(s)@.has_source(source@.src_id),
        r is Ok ==> final(s)@ == (StoreV {
            sources: old(s)@.sources.push(source@),
            ..old(s)@
        }),
        r matches Err(e) ==> final(s)@ == old(s)@ && (e matches StoreError::DuplicateSource(d)
            && d@ == source@.src_id),
{
    match find_source(s, source.src_id.as_str()) {
        Some(_) => Err(StoreError::DuplicateSource(source.src_id.clone())),
        None => {
            s.sources.push(source.clone());
            proof {
                assert(s@.sources =~= old(s)@.sources.push(source@));
                assert(s@ =~= (StoreV { sources: old(s)@.sources.push(source@), ..old(s)@ }));
                assert forall|i: int|
                    0 <= i < s@.records.len() implies s@.has_source(
                    s@.records[i].src_id,
                ) by {
                    let k = choose|k: int|
                        0 <= k < old(s)@.sources.len() && old(s)@.sources[k].src_id == old(
                            s,
                        )@.records[i].src_id;
                    assert(s@.sources[k].src_id == s@.records[i].src_id);
                }
            }
            Ok(())
        },
    }
}

/// Updates the configuration and active flag of the source with the given
/// id; updating an unknown id changes nothing.
pub fn update_source(s: &mut Store, source: Source) -> (r: Result<(), StoreError>)
    requires
        old(s)@.wf(),
    ensures
        final(s)@.wf(),
        r is Ok,
        !old(s)@.has_source(source@.src_id) ==> final(s)@ == old(s)@,
        old(s)@.has_source(source@.src_id) ==> exists|i: int|
            0 <= i < old(s)@.sources.len() && old(s)@.sources[i].src_id == source@.src_id
                && final(s)@ == (StoreV {
                sources: old(s)@.sources.update(i, source@),
                ..old(s)@
            }),
{
    let ghost pre = s@;
    match find_source(s, source.src_id.as_str()) {
        Some(i) => {
            let ghost sv = source@;
            s.sources.set(i, source);
            proof {
                assert(s@.sources =~= pre.sources.update(i as int, sv));
                assert(s@ =~= (StoreV { sources: pre.sources.update(i as int, sv), ..pre }));
                assert forall|k: int|
                    0 <= k < s@.records.len() implies s@.has_source(s@.records[k].src_id) by {
                    let m = choose|m: int|
                        0 <= m < pre.sources.len() && pre.sources[m].src_id
                            == pre.records[k].src_id;
                    assert(s@.sources[m].src_id == s@.records[k].src_id);
                }
            }
            Ok(())
        },
        None => Ok(()),
    }
}

/// Removes records for the given source id from a record sequence, keeping
/// the order of the rest.
pub open spec fn records_without_source(records: Seq<RecordV>, id: Seq<char>) -> Seq<RecordV>
    decreases records.len(),
{
    if records.len() == 0 {
        Seq::empty()
    } else {
        let rest = records_without_source(records.drop_last(), id);
        if records.last().src_id == id {
            rest
        } else {
            rest.push(records.last())
        }
    }
}

/// Deletes a source by its id, together with its queued records; deleting
/// an unknown id changes nothing.
pub fn delete_source(s: &mut Store, src_id: &str) -> (r: Result<(), StoreError>)
    requires
        old(s)@.wf(),
    ensures
        final(s)@.wf(),
        r is Ok,
        final(s)@.settings == old(s)@.settings,
        final(s)@.next_id == old(s)@.next_id,
        final(s)@.records == records_without_source(old(s)@.records, src_id@),
        !old(s)@.has_source(src_id@) ==> final(s)@ == old(s)@,
        old(s)@.has_source(src_id@) ==> exists|i: int|
            0 <= i < old(s)@.sources.len() && old(s)@.sources[i].src_id == src_id@
                && final(s)@.sources == old(s)@.sources.remove(i),
{
    let ghost pre = s@;
    match find_source(s, src_id) {
        None => {
            proof {
                lemma_without_source_absent(pre.records, src_id@, pre);
            }
            Ok(())
        },
        Some(i) => {
            s.sources.remove(i);
            let mut kept: Vec<Record> = Vec::new();
            let n = s.records.len();
            let mut j: usize = 0;
            while j < n
                invariant
                    j <= n,
                    n == s.records@.len(),
                    s@.records == pre.records,
                    views_of(kept@) =~= records_without_source(
                        pre.records.subrange(0, j as int),
                        src_id@,
                    ),
                decreases n - j,
            {
                proof {
                    let prefix = pre.records.subrange(0, j as int);
                    let next = pre.records.subrange(0, j as int + 1);
                    assert(next.drop_last() =~= prefix);
                    assert(next.last() == pre.records[j as int]);
                }
                if !str_eq(s.records[j].src_id.as_str(), src_id) {
                    kept.push(s.records[j].clone());
                }
                j = j + 1;
                proof {
                    assert(views_of(kept@) =~= records_without_source(
                        pre.records.subrange(0, j as int),
                        src_id@,
                    ));
                }
            }
            s.records = kept;
            proof {
                assert(pre.records.subrange(0, pre.records.len() as int) =~= pre.records);
                assert(s@.sources =~= pre.sources.remove(i as int));
                assert(s@.settings =~= pre.settings);
                lemma_without_source_shape(pre.records, src_id@);
                assert forall|k: int|
                    0 <= k < s@.records.len() implies s@.has_source(s@.records[k].src_id) by {
                    let rec = s@.records[k];
                    let m = choose|m: int|
                        0 <= m < pre.records.len() && pre.records[m] == rec;
                    assert(pre.has_source(rec.src_id));
                    let q = choose|q: int|
                        0 <= q < pre.sources.len() && pre.sources[q].src_id == rec.src_id;
                    assert(pre.sources[q].src_id != src_id@);
                    if q < i as int {
                        assert(s@.sources[q].src_id == rec.src_id);
                    } else {
                        assert(q > i as int);
                        assert(s@.sources[q - 1].src_id == rec.src_id);
                    }
                }
            }
            Ok(())
        },
    }
}

/// Keeps the unsent records, most recent identifier first.
pub open spec fn unsent_desc(records: Seq<RecordV>) -> Seq<RecordV>
    decreases records.len(),
{
    if records.len() == 0 {
        Seq::empty()
    } else {
        let rest = unsent_desc(records.drop_last());
        if records.last().sent {
            rest
        } else {
            seq![records.last()] + rest
        }
    }
}

/// Keeps the unsent records of one source, most recent identifier first.
pub open spec fn unsent_desc_for(records: Seq<RecordV>, id: Seq<char>) -> Seq<RecordV>
    decreases records.len(),
{
    if records.len() == 0 {
        Seq::empty()
    } else {
        let rest = unsent_desc_for(records.drop_last(), id);
        if !records.last().sent && records.last().src_id == id {
            seq![records.last()] + rest
        } else {
            rest
        }
    }
}

/// The first `n` elements, or the whole sequence when it is shorter.
pub open spec fn take_up_to<A>(s: Seq<A>, n: int) -> Seq<A> {
    if n >= s.len() {
        s
    } else {
        s.subrange(0, n)
    }
}

/// Gets the latest unsent records, most recent first, at most `count` of
/// them.
pub fn get_last_data(s: &Store, count: u32) -> (r: Vec<Record>)
    ensures
        views_of(r@) == take_up_to(unsent_desc(s@.records), count as int),
{
    let ghost pre = s@.records;
    let mut r: Vec<Record> = Vec::new();
    let mut i: usize = s.records.len();
    proof {
        assert(pre.subrange(0, i as int) =~= pre);
        assert(views_of(r@) + unsent_desc(pre) =~= unsent_desc(pre));
    }
    while i > 0
        invariant
            i <= pre.len(),
            pre.len() == s.records@.len(),
            pre == s@.records,
            unsent_desc(pre) == views_of(r@) + unsent_desc(pre.subrange(0, i as int)),
        decreases i,
    {
        proof {
            let cur = pre.subrange(0, i as int);
            assert(cur.drop_last() =~= pre.subrange(0, i as int - 1));
            assert(cur.last() == pre[i as int - 1]);
        }
        if !s.records[i - 1].sent {
            let c = s.records[i - 1].clone();
            let ghost rv = views_of(r@);
            proof {
                assert(c@ == pre[i as int - 1]);
            }
            r.push(c);
            proof {
                let rest = unsent_desc(pre.subrange(0, i as int - 1));
                assert(views_of(r@) == rv.push(pre[i as int - 1]));
                assert(rv.push(pre[i as int - 1]) + rest =~= rv + (seq![pre[i as int - 1]]
                    + rest));
            }
        }
        i = i - 1;
    }
    proof {
        assert(pre.subrange(0, 0) =~= Seq::<RecordV>::empty());
        assert(views_of(r@) + unsent_desc(pre.subrange(0, 0)) =~= views_of(r@));
    }
    if (count as usize) < r.len() {
        let ghost rv0 = r@;
        r.truncate(count as usize);
        proof {
            assert(r@ == rv0.subrange(0, count as int));
            assert(views_of(rv0.subrange(0, count as int)) == views_of(rv0).subrange(
                0,
                count as int,
            ));
        }
    } else {
        proof {
            assert(views_of(r@) =~= take_up_to(unsent_desc(pre), count as int));
        }
    }
    r
}

/// Gets the latest unsent records of one source, most recent first, at
/// most `count` of them.
pub fn get_data_by_src_id(s: &Store, src_id: &str, count: u32) -> (r: Vec<Record>)
    ensures
        views_of(r@) == take_up_to(unsent_desc_for(s@.records, src_id@), count as int),
{
    let ghost pre = s@.records;
    let mut r: Vec<Record> = Vec::new();
    let mut i: usize = s.records.len();
    proof {
        assert(pre.subrange(0, i as int) =~= pre);
        assert(views_of(r@) + unsent_desc_for(pre, src_id@) =~= unsent_desc_for(pre, src_id@));
    }
    while i > 0
        invariant
            i <= pre.len(),
            pre.len() == s.records@.len(),
            pre == s@.records,
            unsent_desc_for(pre, src_id@) == views_of(r@) + unsent_desc_for(
                pre.subrange(0, i as int),
                src_id@,
            ),
        decreases i,
    {
        proof {
            let cur = pre.subrange(0, i as int);
            assert(cur.drop_last() =~= pre.subrange(0, i as int - 1));
            assert(cur.last() == pre[i as int - 1]);
        }
        if !s.records[i - 1].sent && str_eq(s.records[i - 1].src_id.as_str(), src_id) {
            let c = s.records[i - 1].clone();
            let ghost rv = views_of(r@);
            proof {
                assert(c@ == pre[i as int - 1]);
            }
            r.push(c);
            proof {
                let rest = unsent_desc_for(pre.subrange(0, i as int - 1), src_id@);
                assert(views_of(r@) == rv.push(pre[i as int - 1]));
                assert(rv.push(pre[i as int - 1]) + rest =~= rv + (seq![pre[i as int - 1]]
                    + rest));
            }
        }
        i = i - 1;
    }
    proof {
        assert(pre.subrange(0, 0) =~= Seq::<RecordV>::empty());
        assert(views_of(r@) + unsent_desc_for(pre.subrange(0, 0), src_id@) =~= views_of(r@));
    }
    if (count as usize) < r.len() {
        let ghost rv0 = r@;
        r.truncate(count as usize);
        proof {
            assert(r@ == rv0.subrange(0, count as int));
            assert(views_of(rv0.subrange(0, count as int)) == views_of(rv0).subrange(
                0,
                count as int,
            ));
        }
    } else {
        proof {
            assert(views_of(r@) =~= take_up_to(unsent_desc_for(pre, src_id@), count as int));
        }
    }
    r
}

/// Removing records for an unregistered source id removes nothing.
proof fn lemma_without_source_absent(records: Seq<RecordV>, id: Seq<char>, sv: StoreV)
    requires
        sv.records_linked(),
        !sv.has_source(id),
        records == sv.records,
    ensures
        records_without_source(records, id) == records,
    decreases records.len(),
{
    if records.len() > 0 {
        let shorter = StoreV { records: records.drop_last(), ..sv };
        assert forall|k: int|
            0 <= k < shorter.records.len() implies shorter.has_source(
            shorter.records[k].src_id,
        ) by {
            assert(sv.records[k] == shorter.records[k]);
            let q = choose|q: int|
                0 <= q < sv.sources.len() && sv.sources[q].src_id == sv.records[k].src_id;
            assert(shorter.sources[q].src_id == shorter.records[k].src_id);
        }
        lemma_without_source_absent(records.drop_last(), id, shorter);
        assert(sv.records[records.len() - 1] == records.last());
        assert(sv.has_source(records.last().src_id));
        assert(records.last().src_id != id);
        assert(records_without_source(records, id) =~= records);
    } else {
        assert(records_without_source(records, id) =~= records);
    }
}

/// What survives the cascade is a subsequence of the original records, in
/// order, and none of it carries the removed source id.
proof fn lemma_without_source_shape(records: Seq<RecordV>, id: Seq<char>)
    ensures
        forall|k: int|
            0 <= k < records_without_source(records, id).len() ==> exists|m: int|
                0 <= m < records.len() && records[m] == #[trigger] records_without_source(
                    records,
                    id,
                )[k],
        forall|k: int, l: int|
            0 <= k < l < records_without_source(records, id).len() ==> exists|m: int, q: int|
                0 <= m < q < records.len() && records[m] == #[trigger] records_without_source(
                    records,
                    id,
                )[k] && records[q] == #[trigger] records_without_source(records, id)[l],
        forall|k: int|
            0 <= k < records_without_source(records, id).len()
                ==> #[trigger] records_without_source(records, id)[k].src_id != id,
    decreases records.len(),
{
    if records.len() > 0 {
        lemma_without_source_shape(records.drop_last(), id);
        let out = records_without_source(records, id);
        let rest = records_without_source(records.drop_last(), id);
        assert forall|k: int| 0 <= k < out.len() implies exists|m: int|
            0 <= m < records.len() && records[m] == #[trigger] out[k] by {
            if k < rest.len() {
                let m = choose|m: int|
                    0 <= m < records.drop_last().len() && records.drop_last()[m] == rest[k];
                assert(records[m] == out[k]);
            } else {
                assert(records[records.len() - 1] == out[k]);
            }
        }
        assert forall|k: int, l: int| 0 <= k < l < out.len() implies exists|m: int, q: int|
            0 <= m < q < records.len() && records[m] == #[trigger] out[k] && records[q]
                == #[trigger] out[l] by {
            if l < rest.len() {
                let (m, q): (int, int) = choose|m: int, q: int|
                    0 <= m < q < records.drop_last().len() && records.drop_last()[m] == rest[k]
                        && records.drop_last()[q] == rest[l];
                assert(records[m] == out[k]);
                assert(records[q] == out[l]);
            } else {
                let m = choose|m: int|
                    0 <= m < records.drop_last().len() && records.drop_last()[m] == rest[k];
                assert(records[m] == out[k]);
                assert(records[records.len() - 1] == out[l]);
            }
        }
    }
}

/// Two stores with the same sources register the same ids.
proof fn lemma_has_source_congruent(a: StoreV, b: StoreV, id: Seq<char>)
    requires
        a.sources == b.sources,
    ensures
        a.has_source(id) == b.has_source(id),
{
    if a.has_source(id) {
        let k = choose|k: int| 0 <= k < a.sources.len() && a.sources[k].src_id == id;
        assert(b.sources[k].src_id == id);
    }
    if b.has_source(id) {
        let k = choose|k: int| 0 <= k < b.sources.len() && b.sources[k].src_id == id;
        assert(a.sources[k].src_id == id);
    }
}

/// Finds the position of a record by its id.
fn find_record(s: &Store, id: u32) -> (r: Option<usize>)
    ensures
        r matches Some(i) ==> i < s@.records.len() && s@.records[i as int].id == id,
        r is None <==> !s@.has_record(id),
{
    let mut i: usize = 0;
    while i < s.records.len()
        invariant
            i <= s@.records.len(),
            s@.records.len() == s.records@.len(),
            forall|j: int| 0 <= j < i ==> s@.records[j].id != id,
        decreases s@.records.len() - i,
    {
        if s.records[i].id == id {
            proof {
                assert(s@.records[i as int] == s.records@[i as int]@);
            }
            return Some(i);
        }
        i = i + 1;
    }
    None
}

/// The records as appended by an insert: fresh identifiers counted from
/// `start`, the rest of each row as given.
pub open spec fn appended(recs: Seq<RecordV>, start: u32) -> Seq<RecordV> {
    Seq::new(
        recs.len(),
        |i: int|
            RecordV {
                id: (start + i) as u32,
                src_id: recs[i].src_id,
                data: recs[i].data,
                sent: recs[i].sent,
            },
    )
}

/// Inserts the given records in one transaction. Each accepted record is
/// assigned the next identifier in order, and the identifiers are
/// returned; a record naming an unregistered source rolls the whole
/// insert back.
pub fn add_data(s: &mut Store, records: &Vec<Record>) -> (r: Result<Vec<u32>, StoreError>)
    requires
        old(s)@.wf(),
        old(s)@.next_id + records@.len() <= u32::MAX,
    ensures
        final(s)@.wf(),
        final(s)@.settings == old(s)@.settings,
        final(s)@.sources == old(s)@.sources,
        r is Ok <==> (forall|i: int|
            0 <= i < records@.len() ==> old(s)@.has_source((#[trigger] records@[i])@.src_id)),
        r matches Ok(ids) ==> ({
            &&& ids@.len() == records@.len()
            &&& forall|i: int| 0 <= i < ids@.len() ==> ids@[i] == old(s)@.next_id + i
            &&& final(s)@.next_id == old(s)@.next_id + records@.len()
            &&& final(s)@.records == old(s)@.records + appended(
                views_of(records@),
                old(s)@.next_id,
            )
        }),
        r matches Err(e) ==> final(s)@ == old(s)@ && (e matches StoreError::UnknownSource(u)
            && exists|i: int|
            0 <= i < records@.len() && (#[trigger] records@[i])@.src_id == u@ && !old(
                s,
            )@.has_source(u@) && (forall|j: int|
                0 <= j < i ==> old(s)@.has_source((#[trigger] records@[j])@.src_id))),
{
    let n = records.len();
    let mut i: usize = 0;
    while i < n
        invariant
            n == records@.len(),
            i <= n,
            s@ == old(s)@,
            old(s)@.wf(),
            forall|j: int|
                0 <= j < i ==> old(s)@.has_source((#[trigger] records@[j])@.src_id),
        decreases n - i,
    {
        let rec = &records[i];
        if find_source(s, rec.src_id.as_str()).is_none() {
            return Err(StoreError::UnknownSource(rec.src_id.clone()));
        }
        i = i + 1;
    }
    let ghost pre = s@;
    let mut ids: Vec<u32> = Vec::new();
    i = 0;
    while i < n
        invariant
            n == records@.len(),
            i <= n,
            pre == old(s)@,
            pre.wf(),
            pre.next_id + n <= u32::MAX,
            forall|j: int| 0 <= j < n ==> pre.has_source((#[trigger] records@[j])@.src_id),
            s@.settings == pre.settings,
            s@.sources == pre.sources,
            s@.next_id == pre.next_id + i,
            ids@.len() == i,
            forall|j: int| 0 <= j < i ==> ids@[j] == pre.next_id + j,
            s@.records.len() == pre.records.len() + i,
            s.records@.len() == s@.records.len(),
            forall|j: int| 0 <= j < pre.records.len() ==> s@.records[j] == pre.records[j],
            forall|j: int|
                0 <= j < i ==> s@.records[pre.records.len() + j] == (RecordV {
                    id: (pre.next_id + j) as u32,
                    src_id: (#[trigger] records@[j])@.src_id,
                    data: records@[j]@.data,
                    sent: records@[j]@.sent,
                }),
        decreases n - i,
    {
        let rec = &records[i];
        let id = s.next_id;
        s.records.push(
            Record {
                id,
                src_id: rec.src_id.clone(),
                data: clone_bytes(&rec.data),
                sent: rec.sent,
            },
        );
        s.next_id = s.next_id + 1;
        ids.push(id);
        i = i + 1;
    }
    proof {
        assert(s@.records =~= pre.records + appended(views_of(records@), pre.next_id));
        assert forall|a: int, b: int|
            0 <= a < b < s@.records.len() implies s@.records[a].id < s@.records[b].id by {
            if b < pre.records.len() {
                assert(pre.records[a].id < pre.records[b].id);
            } else if a < pre.records.len() {
                assert(s@.records[a].id < pre.next_id);
                assert(s@.records[b].id >= pre.next_id);
            }
        }
        assert forall|a: int|
            0 <= a < s@.records.len() implies s@.records[a].id < s@.next_id by {
            if a < pre.records.len() {
                assert(s@.records[a].id < pre.next_id);
            }
        }
        assert forall|a: int|
            0 <= a < s@.records.len() implies s@.has_source(s@.records[a].src_id) by {
            lemma_has_source_congruent(pre, s@, s@.records[a].src_id);
            if a < pre.records.len() {
                assert(pre.has_source(pre.records[a].src_id));
            } else {
                assert(pre.has_source((records@[a - pre.records.len() as int])@.src_id));
            }
        }
    }
    Ok(ids)
}

/// Inserts the given records in one transaction, binding them all into a
/// single statement; observably the same as `add_data`.
pub fn bulk_add_data(s: &mut Store, records: &Vec<Record>) -> (r: Result<Vec<u32>, StoreError>)
    requires
        old(s)@.wf(),
        old(s)@.next_id + records@.len() <= u32::MAX,
    ensures
        final(s)@.wf(),
        final(s)@.settings == old(s)@.settings,
        final(s)@.sources == old(s)@.sources,
        r is Ok <==> (forall|i: int|
            0 <= i < records@.len() ==> old(s)@.has_source((#[trigger] records@[i])@.src_id)),
        r matches Ok(ids) ==> ({
            &&& ids@.len() == records@.len()
            &&& forall|i: int| 0 <= i < ids@.len() ==> ids@[i] == old(s)@.next_id + i
            &&& final(s)@.next_id == old(s)@.next_id + records@.len()
            &&& final(s)@.records == old(s)@.records + appended(
                views_of(records@),
                old(s)@.next_id,
            )
        }),
        r matches Err(e) ==> final(s)@ == old(s)@ && (e matches StoreError::UnknownSource(u)
            && exists|i: int|
            0 <= i < records@.len() && (#[trigger] records@[i])@.src_id == u@ && !old(
                s,
            )@.has_source(u@) && (forall|j: int|
                0 <= j < i ==> old(s)@.has_source((#[trigger] records@[j])@.src_id))),
{
    add_data(s, records)
}

/// Whether a record with the given id occurs in the sequence.
pub open spec fn seq_has_record(recs: Seq<RecordV>, id: u32) -> bool {
    exists|i: int| 0 <= i < recs.len() && recs[i].id == id
}

/// The position of the record with the given id.
pub open spec fn record_pos(recs: Seq<RecordV>, id: u32) -> int {
    choose|i: int| 0 <= i < recs.len() && recs[i].id == id
}

/// One update applied: the row with the matching id is replaced, and a
/// miss changes nothing.
pub open spec fn apply_update(recs: Seq<RecordV>, u: RecordV) -> Seq<RecordV> {
    if seq_has_record(recs, u.id) {
        recs.update(record_pos(recs, u.id), u)
    } else {
        recs
    }
}

/// The updates applied one after the other, first to last.
pub open spec fn apply_updates(recs: Seq<RecordV>, upds: Seq<RecordV>) -> Seq<RecordV>
    decreases upds.len(),
{
    if upds.len() == 0 {
        recs
    } else {
        apply_updates(apply_update(recs, upds[0]), upds.subrange(1, upds.len() as int))
    }
}

proof fn lemma_apply_updates_push(recs: Seq<RecordV>, upds: Seq<RecordV>, u: RecordV)
    ensures
        apply_updates(recs, upds.push(u)) == apply_update(apply_updates(recs, upds), u),
    decreases upds.len(),
{
    reveal_with_fuel(apply_updates, 3);
    if upds.len() == 0 {
        assert(upds.push(u)[0] == u);
        assert(upds.push(u).subrange(1, 1) =~= Seq::<RecordV>::empty());
    } else {
        assert(upds.push(u)[0] == upds[0]);
        assert(upds.push(u).subrange(1, upds.push(u).len() as int) =~= upds.subrange(
            1,
            upds.len() as int,
        ).push(u));
        lemma_apply_updates_push(
            apply_update(recs, upds[0]),
            upds.subrange(1, upds.len() as int),
            u,
        );
    }
}

/// Updates the rows named by each record's id in one transaction, setting
/// source, payload and sent flag; an update that would point a row at an
/// unregistered source rolls the whole transaction back.
pub fn update_data(s: &mut Store, records: &Vec<Record>) -> (r: Result<(), StoreError>)
    requires
        old(s)@.wf(),
    ensures
        final(s)@.wf(),
        final(s)@.settings == old(s)@.settings,
        final(s)@.sources == old(s)@.sources,
        final(s)@.next_id == old(s)@.next_id,
        r is Ok <==> (forall|j: int|
            0 <= j < records@.len() ==> (old(s)@.has_record((#[trigger] records@[j])@.id)
                ==> old(s)@.has_source(records@[j]@.src_id))),
        r is Ok ==> final(s)@.records == apply_updates(old(s)@.records, views_of(records@)),
        r matches Err(e) ==> final(s)@ == old(s)@ && (e matches StoreError::UnknownSource(u)
            && exists|j: int|
            0 <= j < records@.len() && (#[trigger] records@[j])@.src_id == u@ && old(
                s,
            )@.has_record(records@[j]@.id) && !old(s)@.has_source(u@) && (forall|k: int|
                0 <= k < j ==> (old(s)@.has_record((#[trigger] records@[k])@.id) ==> old(
                    s,
                )@.has_source(records@[k]@.src_id)))),
{
    let n = records.len();
    let mut i: usize = 0;
    while i < n
        invariant
            n == records@.len(),
            i <= n,
            s@ == old(s)@,
            old(s)@.wf(),
            forall|k: int|
                0 <= k < i ==> (old(s)@.has_record((#[trigger] records@[k])@.id) ==> old(
                    s,
                )@.has_source(records@[k]@.src_id)),
        decreases n - i,
    {
        let rec = &records[i];
        if find_record(s, rec.id).is_some() {
            if find_source(s, rec.src_id.as_str()).is_none() {
                return Err(StoreError::UnknownSource(rec.src_id.clone()));
            }
        }
        i = i + 1;
    }
    let ghost pre = s@;
    let ghost upds = views_of(records@);
    i = 0;
    proof {
        assert(upds.subrange(0, 0) =~= Seq::<RecordV>::empty());
    }
    while i < n
        invariant
            n == records@.len(),
            i <= n,
            pre == old(s)@,
            pre.wf(),
            upds == views_of(records@),
            forall|k: int|
                0 <= k < n ==> (pre.has_record((#[trigger] records@[k])@.id) ==> pre.has_source(
                    records@[k]@.src_id,
                )),
            s@.settings == pre.settings,
            s@.sources == pre.sources,
            s@.next_id == pre.next_id,
            s@.records.len() == pre.records.len(),
            s.records@.len() == s@.records.len(),
            s@.records == apply_updates(pre.records, upds.subrange(0, i as int)),
            forall|m: int| 0 <= m < s@.records.len() ==> (#[trigger] s@.records[m]).id
                == pre.records[m].id,
            forall|m: int|
                0 <= m < s@.records.len() ==> pre.has_source(
                    (#[trigger] s@.records[m]).src_id,
                ),
        decreases n - i,
    {
        proof {
            assert(upds.subrange(0, i as int + 1) =~= upds.subrange(0, i as int).push(
                upds[i as int],
            ));
            lemma_apply_updates_push(pre.records, upds.subrange(0, i as int), upds[i as int]);
            assert(upds[i as int] == records@[i as int]@);
        }
        let ghost before = s@.records;
        let rec = &records[i];
        match find_record(s, rec.id) {
            Some(idx) => {
                proof {
                    assert(seq_has_record(before, rec.id));
                    let p = record_pos(before, rec.id);
                    assert(before[p].id == rec.id);
                    assert(pre.records[p].id == rec.id && pre.records[idx as int].id == rec.id);
                    if p != idx as int {
                        assert(pre.records[p].id != pre.records[idx as int].id);
                    }
                    assert(p == idx as int);
                    assert(pre.has_record(rec@.id));
                    assert(pre.has_source(rec@.src_id));
                }
                s.records.set(
                    idx,
                    Record {
                        id: rec.id,
                        src_id: rec.src_id.clone(),
                        data: clone_bytes(&rec.data),
                        sent: rec.sent,
                    },
                );
                proof {
                    assert(s@.records =~= before.update(idx as int, rec@));
                    assert(s@.records == apply_update(before, upds[i as int]));
                }
            },
            None => {
                proof {
                    assert(!seq_has_record(before, rec.id));
                    assert(s@.records == apply_update(before, upds[i as int]));
                }
            },
        }
        i = i + 1;
    }
    proof {
        assert(upds.subrange(0, n as int) =~= upds);
        assert forall|m: int|
            0 <= m < s@.records.len() implies s@.has_source(s@.records[m].src_id) by {
            lemma_has_source_congruent(pre, s@, s@.records[m].src_id);
        }
    }
    Ok(())
}

/// Removes the records whose ids are in the collection, keeping the
/// order of the rest.
pub open spec fn records_without_ids(recs: Seq<RecordV>, ids: Seq<u32>) -> Seq<RecordV>
    decreases recs.len(),
{
    if recs.len() == 0 {
        Seq::empty()
    } else {
        let rest = records_without_ids(recs.drop_last(), ids);
        if ids.contains(recs.last().id) {
            rest
        } else {
            rest.push(recs.last())
        }
    }
}

/// Decides whether the identifier occurs in the collection.
fn contains_id(ids: &Vec<u32>, id: u32) -> (r: bool)
    ensures
        r == ids@.contains(id),
{
    let mut i: usize = 0;
    while i < ids.len()
        invariant
            i <= ids@.len(),
            forall|j: int| 0 <= j < i ==> ids@[j] != id,
        decreases ids@.len() - i,
    {
        if ids[i] == id {
            return true;
        }
        i = i + 1;
    }
    false
}

/// Deletes the records named by the identifier collection.
#[verifier::rlimit(60)]
pub fn delete_data(s: &mut Store, ids: Vec<u32>) -> (r: Result<(), StoreError>)
    requires
        old(s)@.wf(),
    ensures
        final(s)@.wf(),
        r is Ok,
        final(s)@.settings == old(s)@.settings,
        final(s)@.sources == old(s)@.sources,
        final(s)@.next_id == old(s)@.next_id,
        final(s)@.records == records_without_ids(old(s)@.records, ids@),
{
    let ghost pre = s@;
    let mut kept: Vec<Record> = Vec::new();
    let n = s.records.len();
    let mut j: usize = 0;
    while j < n
        invariant
            j <= n,
            n == s.records@.len(),
            pre == old(s)@,
            pre.wf(),
            s@ == pre,
            views_of(kept@) == records_without_ids(pre.records.subrange(0, j as int), ids@),
            forall|a: int|
                0 <= a < views_of(kept@).len() ==> exists|m: int|
                    0 <= m < j && pre.records[m] == (#[trigger] views_of(kept@)[a]),
        decreases n - j,
    {
        proof {
            let cur = pre.records.subrange(0, j as int + 1);
            assert(cur.drop_last() =~= pre.records.subrange(0, j as int));
            assert(cur.last() == pre.records[j as int]);
        }
        let ghost kv = views_of(kept@);
        if !contains_id(&ids, s.records[j].id) {
            let c = s.records[j].clone();
            proof {
                assert(c@ == pre.records[j as int]);
            }
            kept.push(c);
            proof {
                assert(views_of(kept@) == kv.push(pre.records[j as int]));
                assert forall|a: int|
                    0 <= a < views_of(kept@).len() implies exists|m: int|
                    0 <= m < j + 1 && pre.records[m] == (#[trigger] views_of(kept@)[a]) by {
                    if a < kv.len() {
                        let m = choose|m: int| 0 <= m < j && pre.records[m] == kv[a];
                        assert(pre.records[m] == views_of(kept@)[a]);
                    } else {
                        assert(pre.records[j as int] == views_of(kept@)[a]);
                    }
                }
            }
        }
        j = j + 1;
    }
    proof {
        assert(pre.records.subrange(0, n as int) =~= pre.records);
    }
    s.records = kept;
    proof {
        assert(s@.settings == pre.settings);
        assert(s@.sources == pre.sources);
        assert forall|i: int, j: int|
            0 <= i < j < s@.settings.len() implies s@.settings[i].key
            != s@.settings[j].key by {
            assert(pre.settings[i].key != pre.settings[j].key);
        }
        assert(s@.records == records_without_ids(pre.records, ids@));
        lemma_without_ids_ordered(pre.records, ids@);
        assert forall|a: int, b: int|
            0 <= a < b < s@.records.len() implies s@.records[a].id < s@.records[b].id by {
            let (m, q): (int, int) = choose|m: int, q: int|
                0 <= m < q < pre.records.len() && pre.records[m] == records_without_ids(
                    pre.records,
                    ids@,
                )[a] && pre.records[q] == records_without_ids(pre.records, ids@)[b];
            assert(pre.records[m].id < pre.records[q].id);
        }
        assert forall|a: int|
            0 <= a < s@.records.len() implies s@.records[a].id < s@.next_id by {
            let ma = choose|m: int| 0 <= m < n && pre.records[m] == s@.records[a];
            assert(pre.records[ma].id < pre.next_id);
        }
        assert forall|a: int|
            0 <= a < s@.records.len() implies s@.has_source(s@.records[a].src_id) by {
            let ma = choose|m: int| 0 <= m < n && pre.records[m] == s@.records[a];
            assert(pre.has_source(pre.records[ma].src_id));
            lemma_has_source_congruent(pre, s@, s@.records[a].src_id);
        }
    }
    Ok(())
}

/// Surviving records keep their original relative order.
proof fn lemma_without_ids_ordered(recs: Seq<RecordV>, ids: Seq<u32>)
    ensures
        forall|a: int, b: int|
            0 <= a < b < records_without_ids(recs, ids).len() ==> exists|m: int, q: int|
                0 <= m < q < recs.len() && recs[m] == #[trigger] records_without_ids(
                    recs,
                    ids,
                )[a] && recs[q] == #[trigger] records_without_ids(recs, ids)[b],
    decreases recs.len(),
{
    if recs.len() > 0 {
        lemma_without_ids_ordered(recs.drop_last(), ids);
        let out = records_without_ids(recs, ids);
        let rest = records_without_ids(recs.drop_last(), ids);
        lemma_without_ids_membership(recs.drop_last(), ids);
        assert forall|a: int, b: int|
            0 <= a < b < out.len() implies exists|m: int, q: int|
            0 <= m < q < recs.len() && recs[m] == #[trigger] out[a] && recs[q]
                == #[trigger] out[b] by {
            if b < rest.len() {
                let (m, q): (int, int) = choose|m: int, q: int|
                    0 <= m < q < recs.drop_last().len() && recs.drop_last()[m] == rest[a]
                        && recs.drop_last()[q] == rest[b];
                assert(recs[m] == out[a] && recs[q] == out[b]);
            } else {
                let m = choose|m: int|
                    0 <= m < recs.drop_last().len() && recs.drop_last()[m] == rest[a];
                assert(recs[m] == out[a]);
                assert(recs[recs.len() - 1] == out[b]);
            }
        }
    }
}

/// Every surviving record comes from the original sequence.
proof fn lemma_without_ids_membership(recs: Seq<RecordV>, ids: Seq<u32>)
    ensures
        forall|a: int|
            0 <= a < records_without_ids(recs, ids).len() ==> exists|m: int|
                0 <= m < recs.len() && recs[m] == #[trigger] records_without_ids(recs, ids)[a],
    decreases recs.len(),
{
    if recs.len() > 0 {
        lemma_without_ids_membership(recs.drop_last(), ids);
        let out = records_without_ids(recs, ids);
        let rest = records_without_ids(recs.drop_last(), ids);
        assert forall|a: int| 0 <= a < out.len() implies exists|m: int|
            0 <= m < recs.len() && recs[m] == #[trigger] out[a] by {
            if a < rest.len() {
                let m = choose|m: int|
                    0 <= m < recs.drop_last().len() && recs.drop_last()[m] == rest[a];
                assert(recs[m] == out[a]);
            } else {
                assert(recs[recs.len() - 1] == out[a]);
            }
        }
    }
}

/// Removes every record already marked as sent.
pub open spec fn unsent_kept(recs: Seq<RecordV>) -> Seq<RecordV>
    decreases recs.len(),
{
    if recs.len() == 0 {
        Seq::empty()
    } else {
        let rest = unsent_kept(recs.drop_last());
        if recs.last().sent {
            rest
        } else {
            rest.push(recs.last())
        }
    }
}

/// Deletes every record already marked as sent.
#[verifier::rlimit(60)]
pub fn delete_sent_data(s: &mut Store) -> (r: Result<(), StoreError>)
    requires
        old(s)@.wf(),
    ensures
        final(s)@.wf(),
        r is Ok,
        final(s)@.settings == old(s)@.settings,
        final(s)@.sources == old(s)@.sources,
        final(s)@.next_id == old(s)@.next_id,
        final(s)@.records == unsent_kept(old(s)@.records),
{
    let ghost pre = s@;
    let mut kept: Vec<Record> = Vec::new();
    let n = s.records.len();
    let mut j: usize = 0;
    while j < n
        invariant
            j <= n,
            n == s.records@.len(),
            pre == old(s)@,
            pre.wf(),
            s@ == pre,
            views_of(kept@) == unsent_kept(pre.records.subrange(0, j as int)),
            forall|a: int|
                0 <= a < views_of(kept@).len() ==> exists|m: int|
                    0 <= m < j && pre.records[m] == (#[trigger] views_of(kept@)[a]),
        decreases n - j,
    {
        proof {
            let cur = pre.records.subrange(0, j as int + 1);
            assert(cur.drop_last() =~= pre.records.subrange(0, j as int));
            assert(cur.last() == pre.records[j as int]);
        }
        let ghost kv = views_of(kept@);
        if !s.records[j].sent {
            let c = s.records[j].clone();
            proof {
                assert(c@ == pre.records[j as int]);
            }
            kept.push(c);
            proof {
                assert(views_of(kept@) == kv.push(pre.records[j as int]));
                assert forall|a: int|
                    0 <= a < views_of(kept@).len() implies exists|m: int|
                    0 <= m < j + 1 && pre.records[m] == (#[trigger] views_of(kept@)[a]) by {
                    if a < kv.len() {
                        let m = choose|m: int| 0 <= m < j && pre.records[m] == kv[a];
                        assert(pre.records[m] == views_of(kept@)[a]);
                    } else {
                        assert(pre.records[j as int] == views_of(kept@)[a]);
                    }
                }
            }
        }
        j = j + 1;
    }
    proof {
        assert(pre.records.subrange(0, n as int) =~= pre.records);
    }
    s.records = kept;
    proof {
        assert(s@.settings == pre.settings);
        assert(s@.sources == pre.sources);
        assert forall|i: int, j: int|
            0 <= i < j < s@.settings.len() implies s@.settings[i].key
            != s@.settings[j].key by {
            assert(pre.settings[i].key != pre.settings[j].key);
        }
        assert(s@.records == unsent_kept(pre.records));
        lemma_unsent_kept_ordered(pre.records);
        assert forall|a: int, b: int|
            0 <= a < b < s@.records.len() implies s@.records[a].id < s@.records[b].id by {
            let (m, q): (int, int) = choose|m: int, q: int|
                0 <= m < q < pre.records.len() && pre.records[m] == unsent_kept(
                    pre.records,
                )[a] && pre.records[q] == unsent_kept(pre.records)[b];
            assert(pre.records[m].id < pre.records[q].id);
        }
        assert forall|a: int|
            0 <= a < s@.records.len() implies s@.records[a].id < s@.next_id by {
            let ma = choose|m: int| 0 <= m < n && pre.records[m] == s@.records[a];
            assert(pre.records[ma].id < pre.next_id);
        }
        assert forall|a: int|
            0 <= a < s@.records.len() implies s@.has_source(s@.records[a].src_id) by {
            let ma = choose|m: int| 0 <= m < n && pre.records[m] == s@.records[a];
            assert(pre.has_source(pre.records[ma].src_id));
            lemma_has_source_congruent(pre, s@, s@.records[a].src_id);
        }
    }
    Ok(())
}

/// Surviving unsent records keep their original relative order.
proof fn lemma_unsent_kept_ordered(recs: Seq<RecordV>)
    ensures
        forall|a: int, b: int|
            0 <= a < b < unsent_kept(recs).len() ==> exists|m: int, q: int|
                0 <= m < q < recs.len() && recs[m] == #[trigger] unsent_kept(recs)[a] && recs[q]
                    == #[trigger] unsent_kept(recs)[b],
    decreases recs.len(),
{
    if recs.len() > 0 {
        lemma_unsent_kept_ordered(recs.drop_last());
        let out = unsent_kept(recs);
        let rest = unsent_kept(recs.drop_last());
        lemma_unsent_kept_membership(recs.drop_last());
        assert forall|a: int, b: int|
            0 <= a < b < out.len() implies exists|m: int, q: int|
            0 <= m < q < recs.len() && recs[m] == #[trigger] out[a] && recs[q]
                == #[trigger] out[b] by {
            if b < rest.len() {
                let (m, q): (int, int) = choose|m: int, q: int|
                    0 <= m < q < recs.drop_last().len() && recs.drop_last()[m] == rest[a]
                        && recs.drop_last()[q] == rest[b];
                assert(recs[m] == out[a] && recs[q] == out[b]);
            } else {
                let m = choose|m: int|
                    0 <= m < recs.drop_last().len() && recs.drop_last()[m] == rest[a];
                assert(recs[m] == out[a]);
                assert(recs[recs.len() - 1] == out[b]);
            }
        }
    }
}

/// Every surviving unsent record comes from the original sequence.
proof fn lemma_unsent_kept_membership(recs: Seq<RecordV>)
    ensures
        forall|a: int|
            0 <= a < unsent_kept(recs).len() ==> exists|m: int|
                0 <= m < recs.len() && recs[m] == #[trigger] unsent_kept(recs)[a],
    decreases recs.len(),
{
    if recs.len() > 0 {
        lemma_unsent_kept_membership(recs.drop_last());
        let out = unsent_kept(recs);
        let rest = unsent_kept(recs.drop_last());
        assert forall|a: int| 0 <= a < out.len() implies exists|m: int|
            0 <= m < recs.len() && recs[m] == #[trigger] out[a] by {
            if a < rest.len() {
                let m = choose|m: int|
                    0 <= m < recs.drop_last().len() && recs.drop_last()[m] == rest[a];
                assert(recs[m] == out[a]);
            } else {
                assert(recs[recs.len() - 1] == out[a]);
            }
        }
    }
}

} // verus!
