//! Rows held by the persistent store: settings, registered sources and
//! queued telemetry records, together with their mathematical views.

use vstd::prelude::*;

verus! {

/// One settings row: a unique key with its value.
#[derive(Debug)]
pub struct Setting {
    pub key: String,
    pub value: String,
}

/// A registered data source, identified by a unique string id. A source
/// with `active == false` must never admit new telemetry.
#[derive(Debug)]
pub struct Source {
    pub src_id: String,
    pub cfg: Option<String>,
    pub active: bool,
}

/// One queued telemetry row. The id is assigned by the store on insert and
/// never reused.
#[derive(Debug)]
pub struct Record {
    pub id: u32,
    pub src_id: String,
    pub data: Vec<u8>,
    pub sent: bool,
}

/// Mathematical view of a settings row.
#[verifier::ext_equal]
pub ghost struct SettingV {
    pub key: Seq<char>,
    pub value: Seq<char>,
}

/// Mathematical view of a source row.
#[verifier::ext_equal]
pub ghost struct SourceV {
    pub src_id: Seq<char>,
    pub cfg: Option<Seq<char>>,
    pub active: bool,
}

/// Mathematical view of a telemetry row.
#[verifier::ext_equal]
pub ghost struct RecordV {
    pub id: u32,
    pub src_id: Seq<char>,
    pub data: Seq<u8>,
    pub sent: bool,
}

impl View for Setting {
    type V = SettingV;

    open spec fn view(&self) -> SettingV {
        SettingV { key: self.key@, value: self.value@ }
    }
}

impl View for Source {
    type V = SourceV;

    open spec fn view(&self) -> SourceV {
        SourceV {
            src_id: self.src_id@,
            cfg: match self.cfg {
                Some(c) => Some(c@),
                None => None,
            },
            active: self.active,
        }
    }
}

impl View for Record {
    type V = RecordV;

    open spec fn view(&self) -> RecordV {
        RecordV { id: self.id, src_id: self.src_id@, data: self.data@, sent: self.sent }
    }
}

/// The views of a sequence of rows, element by element.
pub open spec fn views_of<T: View>(rows: Seq<T>) -> Seq<T::V> {
    Seq::new(rows.len(), |i: int| rows[i]@)
}

/// Pushing a row pushes its view.
pub broadcast proof fn lemma_views_of_push<T: View>(rows: Seq<T>, x: T)
    ensures
        #[trigger] views_of(rows.push(x)) == views_of(rows).push(x@),
{
    assert(views_of(rows.push(x)) =~= views_of(rows).push(x@));
}

/// Taking a subrange of rows takes the same subrange of their views.
pub broadcast proof fn lemma_views_of_subrange<T: View>(rows: Seq<T>, a: int, b: int)
    requires
        0 <= a <= b <= rows.len(),
    ensures
        #[trigger] views_of(rows.subrange(a, b)) == views_of(rows).subrange(a, b),
{
    assert(views_of(rows.subrange(a, b)) =~= views_of(rows).subrange(a, b));
}

impl Clone for Setting {
    fn clone(&self) -> (r: Self)
        ensures
            r@ == self@,
    {
        Setting { key: self.key.clone(), value: self.value.clone() }
    }
}

impl Clone for Source {
    fn clone(&self) -> (r: Self)
        ensures
            r@ == self@,
    {
        let cfg = match &self.cfg {
            Some(c) => Some(c.clone()),
            None => None,
        };
        let r = Source { src_id: self.src_id.clone(), cfg, active: self.active };
        proof {
            assert(r@ =~= self@);
        }
        r
    }
}

/// Copies a byte vector.
pub fn clone_bytes(v: &Vec<u8>) -> (r: Vec<u8>)
    ensures
        r@ == v@,
{
    let mut r: Vec<u8> = Vec::new();
    let mut i: usize = 0;
    while i < v.len()
        invariant
            i <= v@.len(),
            r@ == v@.subrange(0, i as int),
        decreases v@.len() - i,
    {
        r.push(v[i]);
        i = i + 1;
        proof {
            assert(r@ =~= v@.subrange(0, i as int));
        }
    }
    proof {
        assert(r@ =~= v@);
    }
    r
}

impl Clone for Record {
    fn clone(&self) -> (r: Self)
        ensures
            r@ == self@,
    {
        let r = Record {
            id: self.id,
            src_id: self.src_id.clone(),
            data: clone_bytes(&self.data),
            sent: self.sent,
        };
        proof {
            assert(r@ =~= self@);
        }
        r
    }
}

/// Compares two byte vectors for equality.
pub fn bytes_eq(a: &Vec<u8>, b: &Vec<u8>) -> (r: bool)
    ensures
        r == (a@ == b@),
{
    if a.len() != b.len() {
        return false;
    }
    let mut i: usize = 0;
    while i < a.len()
        invariant
            a@.len() == b@.len(),
            i <= a@.len(),
            forall|j: int| 0 <= j < i ==> a@[j] == b@[j],
        decreases a@.len() - i,
    {
        if a[i] != b[i] {
            return false;
        }
        i = i + 1;
    }
    proof {
        assert(a@ =~= b@);
    }
    true
}

impl PartialEq for Source {
    fn eq(&self, other: &Self) -> (r: bool)
    {
        let cfg_eq = match (&self.cfg, &other.cfg) {
            (Some(a), Some(b)) => *a == *b,
            (None, None) => true,
            _ => false,
        };
        let r = self.src_id == other.src_id && cfg_eq && self.active == other.active;
        proof {
            if r {
                assert(self@ =~= other@);
            }
        }
        r
    }
}

impl vstd::std_specs::cmp::PartialEqSpecImpl for Source {
    open spec fn obeys_eq_spec() -> bool {
        true
    }

    open spec fn eq_spec(&self, other: &Self) -> bool {
        self@ == other@
    }
}

impl Eq for Source {

}

impl PartialEq for Record {
    fn eq(&self, other: &Self) -> (r: bool)
    {
        let r = self.id == other.id && self.src_id == other.src_id && bytes_eq(
            &self.data,
            &other.data,
        ) && self.sent == other.sent;
        proof {
            if r {
                assert(self@ =~= other@);
            }
        }
        r
    }
}

impl vstd::std_specs::cmp::PartialEqSpecImpl for Record {
    open spec fn obeys_eq_spec() -> bool {
        true
    }

    open spec fn eq_spec(&self, other: &Self) -> bool {
        self@ == other@
    }
}

impl Eq for Record {

}

} // verus!
