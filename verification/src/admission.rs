//! The ingestion admission pipeline: origin gate, payload check and
//! source authorisation, followed by a single atomic append to the store.
//! Checks run in that order and fail fast; nothing is written on any
//! rejection path.

use vstd::prelude::*;
use vstd::string::StringExecFns;
use crate::models::{Record, RecordV, Source};
use crate::net::{IpAddress, is_private_ip, is_private_ip_spec};
use crate::store::{Store, StoreV};
use crate::strutil::{ascii_chars, bytes_to_string};

verus! {

/// Why an inbound submission was refused.
#[derive(Debug)]
pub enum AdmissionError {
    /// The peer address could not be determined.
    OriginUnknown,
    /// The peer address is not a private address.
    OriginNotPrivate,
    /// The request carries no source identifier header.
    MissingIdentifier,
    /// The identifier header is not printable text.
    MalformedIdentifier,
    /// The identifier header is empty.
    EmptyIdentifier,
    /// The payload is empty.
    EmptyPayload,
    /// The store could not be reached or the query failed.
    StoreFailure(String),
    /// No source with this id is registered.
    UnknownSource(String),
    /// The source is registered but disabled.
    SourceDisabled(String),
}

impl AdmissionError {
    /// The response text for this refusal.
    pub fn message(&self) -> (r: String)
        ensures
            self is OriginUnknown ==> r@ == "Unable to determine client IP address"@,
            self is OriginNotPrivate ==> r@ == "Access is allowed only from private IP addresses"@,
            self is MissingIdentifier ==> r@ == "Missing X-Source-Id header"@,
            self is MalformedIdentifier ==> r@ == "Invalid X-Source-Id header value"@,
            self is EmptyIdentifier ==> r@ == "X-Source-Id header cannot be empty"@,
            self is EmptyPayload ==> r@ == "Empty data is not allowed."@,
            self matches AdmissionError::StoreFailure(d) ==> r@ == d@,
            self matches AdmissionError::UnknownSource(u) ==> r@ == "Source with ID "@ + u@
                + " does not registered. Access denied."@,
            self matches AdmissionError::SourceDisabled(u) ==> r@ == "Source with ID "@ + u@
                + " is disabled. Access denied."@,
    {
        match self {
            AdmissionError::OriginUnknown => String::from_str(
                "Unable to determine client IP address",
            ),
            AdmissionError::OriginNotPrivate => String::from_str(
                "Access is allowed only from private IP addresses",
            ),
            AdmissionError::MissingIdentifier => String::from_str("Missing X-Source-Id header"),
            AdmissionError::MalformedIdentifier => String::from_str(
                "Invalid X-Source-Id header value",
            ),
            AdmissionError::EmptyIdentifier => String::from_str(
                "X-Source-Id header cannot be empty",
            ),
            AdmissionError::EmptyPayload => String::from_str("Empty data is not allowed."),
            AdmissionError::StoreFailure(d) => d.clone(),
            AdmissionError::UnknownSource(u) => String::from_str("Source with ID ").concat(
                u.as_str(),
            ).concat(" does not registered. Access denied."),
            AdmissionError::SourceDisabled(u) => String::from_str("Source with ID ").concat(
                u.as_str(),
            ).concat(" is disabled. Access denied."),
        }
    }

    /// The HTTP status this refusal maps to: input errors to 400,
    /// access-control denials to 403, infrastructure failures to 500.
    pub fn status_code(&self) -> (r: u16)
        ensures
            self is OriginUnknown ==> r == 403,
            self is OriginNotPrivate ==> r == 403,
            self is MissingIdentifier ==> r == 400,
            self is MalformedIdentifier ==> r == 400,
            self is EmptyIdentifier ==> r == 400,
            self is EmptyPayload ==> r == 500,
            self is StoreFailure ==> r == 500,
            self is UnknownSource ==> r == 403,
            self is SourceDisabled ==> r == 403,
    {
        match self {
            AdmissionError::OriginUnknown => 403,
            AdmissionError::OriginNotPrivate => 403,
            AdmissionError::MissingIdentifier => 400,
            AdmissionError::MalformedIdentifier => 400,
            AdmissionError::EmptyIdentifier => 400,
            AdmissionError::EmptyPayload => 500,
            AdmissionError::StoreFailure(_) => 500,
            AdmissionError::UnknownSource(_) => 403,
            AdmissionError::SourceDisabled(_) => 403,
        }
    }
}

/// A header value is printable when every byte is visible ASCII, a space
/// or a horizontal tab.
pub open spec fn printable_header(h: Seq<u8>) -> bool {
    forall|i: int| 0 <= i < h.len() ==> (32 <= h[i] && h[i] <= 126) || h[i] == 9
}

/// Whether the source with the given id is registered and active.
pub open spec fn source_active(s: StoreV, id: Seq<char>) -> bool {
    exists|i: int| 0 <= i < s.sources.len() && s.sources[i].src_id == id && s.sources[i].active
}

/// The admission decision, in the order the checks run: origin gate,
/// payload check, source authorisation.
pub ghost enum Decision {
    Accept,
    OriginUnknown,
    OriginNotPrivate,
    EmptyPayload,
    MissingIdentifier,
    MalformedIdentifier,
    EmptyIdentifier,
    UnknownSource,
    SourceDisabled,
}

/// What the pipeline decides for a request, as a function of the store
/// and the request alone.
pub open spec fn decide(
    s: StoreV,
    peer: Option<IpAddress>,
    header: Option<Seq<u8>>,
    payload: Seq<u8>,
) -> Decision {
    match peer {
        None => Decision::OriginUnknown,
        Some(ip) => if !is_private_ip_spec(ip) {
            Decision::OriginNotPrivate
        } else if payload.len() == 0 {
            Decision::EmptyPayload
        } else {
            match header {
                None => Decision::MissingIdentifier,
                Some(h) => if !printable_header(h) {
                    Decision::MalformedIdentifier
                } else if h.len() == 0 {
                    Decision::EmptyIdentifier
                } else if !s.has_source(ascii_chars(h)) {
                    Decision::UnknownSource
                } else if !source_active(s, ascii_chars(h)) {
                    Decision::SourceDisabled
                } else {
                    Decision::Accept
                },
            }
        },
    }
}

/// Whether a returned error is the one the decision calls for.
pub open spec fn error_matches(e: AdmissionError, d: Decision) -> bool {
    match e {
        AdmissionError::OriginUnknown => d is OriginUnknown,
        AdmissionError::OriginNotPrivate => d is OriginNotPrivate,
        AdmissionError::MissingIdentifier => d is MissingIdentifier,
        AdmissionError::MalformedIdentifier => d is MalformedIdentifier,
        AdmissionError::EmptyIdentifier => d is EmptyIdentifier,
        AdmissionError::EmptyPayload => d is EmptyPayload,
        AdmissionError::StoreFailure(_) => false,
        AdmissionError::UnknownSource(_) => d is UnknownSource,
        AdmissionError::SourceDisabled(_) => d is SourceDisabled,
    }
}

/// Checks the peer address against the private address space. This gate
/// runs before any other processing; an undetermined address is refused
/// with its own reason.
pub fn check_origin(peer: &Option<IpAddress>) -> (r: Result<(), AdmissionError>)
    ensures
        peer is None <==> r matches Err(AdmissionError::OriginUnknown),
        (peer matches Some(ip) && !is_private_ip_spec(*ip)) <==> r matches Err(
            AdmissionError::OriginNotPrivate,
        ),
        (peer matches Some(ip) && is_private_ip_spec(*ip)) <==> r is Ok,
{
    match peer {
        None => Err(AdmissionError::OriginUnknown),
        Some(ip) => {
            if is_private_ip(ip) {
                Ok(())
            } else {
                Err(AdmissionError::OriginNotPrivate)
            }
        },
    }
}

/// Reads the source identifier out of the raw header value: absent,
/// unprintable and empty headers are refused, each with its own reason.
pub fn parse_source_header(header: Option<&Vec<u8>>) -> (r: Result<String, AdmissionError>)
    ensures
        header is None <==> r matches Err(AdmissionError::MissingIdentifier),
        (header matches Some(h) && !printable_header(h@)) <==> r matches Err(
            AdmissionError::MalformedIdentifier,
        ),
        (header matches Some(h) && printable_header(h@) && h@.len() == 0) <==> r matches Err(
            AdmissionError::EmptyIdentifier,
        ),
        header matches Some(h) ==> (printable_header(h@) && h@.len() > 0 ==> (r matches Ok(
            id,
        ) && id@ == ascii_chars(h@))),
{
    let h = match header {
        None => {
            return Err(AdmissionError::MissingIdentifier);
        },
        Some(h) => h,
    };
    let mut i: usize = 0;
    while i < h.len()
        invariant
            header == Some(h),
            i <= h@.len(),
            forall|j: int| 0 <= j < i ==> (32 <= h@[j] && h@[j] <= 126) || h@[j] == 9,
        decreases h@.len() - i,
    {
        let b = h[i];
        if !(32 <= b && b <= 126) && b != 9 {
            return Err(AdmissionError::MalformedIdentifier);
        }
        i = i + 1;
    }
    if h.len() == 0 {
        return Err(AdmissionError::EmptyIdentifier);
    }
    Ok(bytes_to_string(h))
}

/// Decides authorisation from the store's answer to the lookup: a store
/// failure, an unknown source and a disabled source are refused, each
/// with its own reason; an active source is admitted.
pub fn authorize_source(id: &str, lookup: Result<Option<Source>, String>) -> (r: Result<
    String,
    AdmissionError,
>)
    ensures
        lookup matches Err(d) ==> (r matches Err(AdmissionError::StoreFailure(m)) && m@ == d@),
        lookup matches Ok(f) && f is None ==> (r matches Err(AdmissionError::UnknownSource(u))
            && u@ == id@),
        lookup matches Ok(f) && f matches Some(src) && !src.active ==> (r matches Err(
            AdmissionError::SourceDisabled(u),
        ) && u@ == id@),
        lookup matches Ok(f) && f matches Some(src) && src.active ==> (r matches Ok(out) && out@
            == id@),
{
    match lookup {
        Err(d) => Err(AdmissionError::StoreFailure(d)),
        Ok(None) => Err(AdmissionError::UnknownSource(String::from_str(id))),
        Ok(Some(src)) => {
            if src.active {
                Ok(String::from_str(id))
            } else {
                Err(AdmissionError::SourceDisabled(String::from_str(id)))
            }
        },
    }
}

/// Validates the source identifier header against the store: the header
/// checks first, then the lookup; an unknown or disabled source is
/// refused. Reads only; no write happens here.
pub fn validate_source_id(header: Option<&Vec<u8>>, s: &Store) -> (r: Result<
    String,
    AdmissionError,
>)
    requires
        s@.wf(),
    ensures
        header is None <==> r matches Err(AdmissionError::MissingIdentifier),
        (header matches Some(h) && !printable_header(h@)) <==> r matches Err(
            AdmissionError::MalformedIdentifier,
        ),
        (header matches Some(h) && printable_header(h@) && h@.len() == 0) <==> r matches Err(
            AdmissionError::EmptyIdentifier,
        ),
        header matches Some(h) ==> (printable_header(h@) && h@.len() > 0 && !s@.has_source(
            ascii_chars(h@),
        ) ==> (r matches Err(AdmissionError::UnknownSource(u)) && u@ == ascii_chars(h@))),
        header matches Some(h) ==> (printable_header(h@) && h@.len() > 0 && s@.has_source(
            ascii_chars(h@),
        ) && !source_active(s@, ascii_chars(h@)) ==> (r matches Err(
            AdmissionError::SourceDisabled(u),
        ) && u@ == ascii_chars(h@))),
        header matches Some(h) ==> (printable_header(h@) && h@.len() > 0 && source_active(
            s@,
            ascii_chars(h@),
        ) ==> (r matches Ok(id) && id@ == ascii_chars(h@))),
        r !is Ok ==> !(r matches Err(AdmissionError::StoreFailure(_))),
{
    let id = match parse_source_header(header) {
        Err(e) => {
            return Err(e);
        },
        Ok(id) => id,
    };
    let found = crate::store::get_source_by_name(s, id.as_str());
    match found {
        None => Err(AdmissionError::UnknownSource(id)),
        Some(src) => {
            if src.active {
                proof {
                    let h = header->0;
                    let k = choose|k: int|
                        0 <= k < s@.sources.len() && s@.sources[k] == src@ && src@.src_id
                            == id@;
                    assert(s@.sources[k].active);
                }
                Ok(id)
            } else {
                proof {
                    let h = header->0;
                    let k = choose|k: int|
                        0 <= k < s@.sources.len() && s@.sources[k] == src@ && src@.src_id
                            == id@;
                    assert forall|m: int|
                        0 <= m < s@.sources.len() && s@.sources[m].src_id == id@ implies !(
                        s@.sources[m].active) by {
                        if m != k {
                            assert(s@.sources[m].src_id != s@.sources[k].src_id);
                        }
                    }
                }
                Err(AdmissionError::SourceDisabled(id))
            }
        },
    }
}

/// One accepted admission: the store after it holds exactly one more
/// record, carrying the next identifier, the source id, the payload and a
/// clear sent flag; the identifier is strictly greater than every one
/// assigned before.
pub open spec fn admitted(
    pre: StoreV,
    post: StoreV,
    id: u32,
    src: Seq<char>,
    data: Seq<u8>,
) -> bool {
    &&& id == pre.next_id
    &&& post.next_id == pre.next_id + 1
    &&& post.settings == pre.settings
    &&& post.sources == pre.sources
    &&& post.records == pre.records.push(RecordV { id, src_id: src, data, sent: false })
    &&& forall|i: int| 0 <= i < pre.records.len() ==> pre.records[i].id < id
}

/// The view of an optional raw header value.
pub open spec fn header_view(h: Option<Vec<u8>>) -> Option<Seq<u8>> {
    match h {
        None => None,
        Some(v) => Some(v@),
    }
}

/// Admits one inbound submission: origin gate, payload check and source
/// authorisation in that order, fail fast; only when all pass is exactly
/// one record appended, and its fresh identifier returned. On every
/// rejection the store is untouched.
pub fn receive_data(
    s: &mut Store,
    peer: Option<IpAddress>,
    header: Option<Vec<u8>>,
    payload: Vec<u8>,
) -> (r: Result<u32, AdmissionError>)
    requires
        old(s)@.wf(),
        old(s)@.next_id < u32::MAX,
    ensures
        final(s)@.wf(),
        r is Ok <==> decide(old(s)@, peer, header_view(header), payload@) is Accept,
        r is Err ==> final(s)@ == old(s)@,
        r matches Err(e) ==> error_matches(e, decide(old(s)@, peer, header_view(header), payload@)),
        r matches Err(AdmissionError::UnknownSource(u)) ==> (header matches Some(h) && u@
            == ascii_chars(h@)),
        r matches Err(AdmissionError::SourceDisabled(u)) ==> (header matches Some(h) && u@
            == ascii_chars(h@)),
        r matches Ok(id) ==> (header matches Some(h) && admitted(
            old(s)@,
            final(s)@,
            id,
            ascii_chars(h@),
            payload@,
        )),
{
    match check_origin(&peer) {
        Err(e) => {
            return Err(e);
        },
        Ok(_) => {},
    }
    if payload.len() == 0 {
        return Err(AdmissionError::EmptyPayload);
    }
    let src_id = match validate_source_id(header.as_ref(), s) {
        Err(e) => {
            return Err(e);
        },
        Ok(id) => id,
    };
    let ghost pre = s@;
    let id = s.next_id;
    s.records.push(Record { id, src_id, data: payload, sent: false });
    s.next_id = s.next_id + 1;
    proof {
        let h = header->0;
        let rec = RecordV { id, src_id: ascii_chars(h@), data: payload@, sent: false };
        assert(s@.records == pre.records.push(rec));
        assert(s@.settings == pre.settings);
        assert(s@.sources == pre.sources);
        assert forall|i: int, j: int|
            0 <= i < j < s@.records.len() implies s@.records[i].id < s@.records[j].id by {
            if j < pre.records.len() {
                assert(pre.records[i].id < pre.records[j].id);
            } else {
                assert(pre.records[i].id < pre.next_id);
            }
        }
        assert forall|i: int|
            0 <= i < s@.records.len() implies s@.records[i].id < s@.next_id by {
            if i < pre.records.len() {
                assert(pre.records[i].id < pre.next_id);
            }
        }
        assert forall|i: int|
            0 <= i < s@.records.len() implies s@.has_source(s@.records[i].src_id) by {
            if i < pre.records.len() {
                assert(pre.has_source(pre.records[i].src_id));
                let k = choose|k: int|
                    0 <= k < pre.sources.len() && pre.sources[k].src_id
                        == pre.records[i].src_id;
                assert(s@.sources[k].src_id == s@.records[i].src_id);
            } else {
                let k = choose|k: int|
                    0 <= k < pre.sources.len() && pre.sources[k].src_id == rec.src_id
                        && pre.sources[k].active;
                assert(s@.sources[k].src_id == s@.records[i].src_id);
            }
        }
        assert forall|i: int, j: int|
            0 <= i < j < s@.settings.len() implies s@.settings[i].key
            != s@.settings[j].key by {
            assert(pre.settings[i].key != pre.settings[j].key);
        }
        assert forall|i: int, j: int|
            0 <= i < j < s@.sources.len() implies s@.sources[i].src_id
            != s@.sources[j].src_id by {
            assert(pre.sources[i].src_id != pre.sources[j].src_id);
        }
    }
    Ok(id)
}

/// A disabled source is always refused with the disabled-source reason,
/// whatever non-empty payload the request carries.
pub proof fn lemma_disabled_source_rejected(
    s: StoreV,
    peer: Option<IpAddress>,
    header: Option<Seq<u8>>,
    payload: Seq<u8>,
    i: int,
)
    requires
        s.wf(),
        peer matches Some(ip) && is_private_ip_spec(ip),
        payload.len() > 0,
        header matches Some(h) && printable_header(h) && h.len() > 0,
        0 <= i < s.sources.len(),
        header matches Some(h) ==> s.sources[i].src_id == ascii_chars(h),
        !s.sources[i].active,
    ensures
        decide(s, peer, header, payload) is SourceDisabled,
{
    let h = header->0;
    assert(s.sources[i].src_id == ascii_chars(h));
    assert(s.has_source(ascii_chars(h)));
    assert forall|m: int|
        0 <= m < s.sources.len() && s.sources[m].src_id == ascii_chars(h) implies !(
    s.sources[m].active) by {
        if m != i {
            assert(s.sources[m].src_id != s.sources[i].src_id);
        }
    }
}

/// Identifiers are unique: two successive accepted admissions receive
/// distinct, strictly increasing identifiers, and no identifier held in
/// the store after them is repeated.
pub proof fn lemma_distinct_identifiers(
    s0: StoreV,
    s1: StoreV,
    s2: StoreV,
    id1: u32,
    id2: u32,
    src1: Seq<char>,
    src2: Seq<char>,
    d1: Seq<u8>,
    d2: Seq<u8>,
)
    requires
        s0.wf(),
        admitted(s0, s1, id1, src1, d1),
        admitted(s1, s2, id2, src2, d2),
    ensures
        id2 > id1,
        id1 != id2,
        forall|i: int, j: int|
            0 <= i < j < s2.records.len() ==> s2.records[i].id != s2.records[j].id,
{
    assert forall|i: int, j: int|
        0 <= i < j < s2.records.len() implies s2.records[i].id != s2.records[j].id by {
        if j < s0.records.len() {
            assert(s0.records[i].id < s0.records[j].id);
        } else if j == s0.records.len() {
            assert(s2.records[j].id == id1);
            assert(s0.records[i].id < id1);
        } else {
            assert(s2.records[j].id == id2);
            if i < s0.records.len() {
                assert(s0.records[i].id < id1);
            } else {
                assert(s2.records[i].id == id1);
            }
        }
    }
}

} // verus!
