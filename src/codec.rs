//! The multi-status envelope of the protocol, the property bags of each
//! query, and the request bodies.
use crate::time::{parse_rfc2822, rfc2822_instant, Timestamp};
use vstd::prelude::*;

verus! {

/// Why a step of discovery or fetch failed.
#[derive(Clone, Copy, Debug, PartialEq, Eq, Structural)]
pub enum SyncError {
    /// The secret could not be obtained.
    Auth,
    /// A request could not be sent or its answer not received.
    Transport,
    /// An answer does not have the expected shape.
    MalformedResponse,
}

/// A multi-status answer: one entry per resource.
#[derive(Debug)]
pub struct Multistatus<T> {
    pub responses: Vec<Response<T>>,
}

/// One resource of a multi-status answer: its reference and properties.
#[derive(Debug)]
pub struct Response<T> {
    pub href: Href,
    pub propstat: Propstat<T>,
}

/// The properties of a resource, with the status they came with.
#[derive(Debug)]
pub struct Propstat<T> {
    pub prop: T,
    pub status: Option<Status>,
}

#[derive(Debug)]
pub struct Href {
    pub value: String,
}

#[derive(Debug)]
pub struct Status {
    pub value: String,
}

#[derive(Debug)]
pub struct Etag {
    pub value: String,
}

/// A last-modified property, read as an instant.
#[derive(Debug)]
pub struct LastModified {
    pub value: Timestamp,
}

/// A last-modified property as the server wrote it.
#[derive(Debug)]
pub struct RawLastModified {
    pub value: String,
}

#[derive(Debug)]
pub struct AddressData {
    pub value: String,
}

/// Properties of a card in the bulk answer.
#[derive(Debug)]
pub struct AddressDataProp {
    pub address_data: AddressData,
    pub getetag: Etag,
    pub getlastmodified: LastModified,
}

/// Properties of a card in the bulk answer, its date not yet read.
#[derive(Debug)]
pub struct RawAddressDataProp {
    pub address_data: AddressData,
    pub getetag: Etag,
    pub getlastmodified: RawLastModified,
}

#[derive(Debug)]
pub struct CurrentUserPrincipal {
    pub href: Href,
}

/// Properties answered to the current-user-principal query.
#[derive(Debug)]
pub struct CurrentUserPrincipalProp {
    pub current_user_principal: CurrentUserPrincipal,
}

#[derive(Debug)]
pub struct AddressbookHomeSet {
    pub href: Href,
}

/// Properties answered to the address-book-home-set query.
#[derive(Debug)]
pub struct AddressbookHomeSetProp {
    pub addressbook_home_set: AddressbookHomeSet,
}

/// The marker of an address-book resource type.
#[derive(Debug)]
pub struct Addressbook {}

#[derive(Debug)]
pub struct AddressbookResourceType {
    pub addressbook: Option<Addressbook>,
}

/// Properties answered to the resource-type query.
#[derive(Debug)]
pub struct AddressbookProp {
    pub resourcetype: AddressbookResourceType,
}

/// Body of the current-user-principal query.
pub const CURRENT_USER_PRINCIPAL_BODY: &'static str = "<D:propfind xmlns:D=\"DAV:\"><D:prop><D:current-user-principal /></D:prop></D:propfind>";

/// Body of the address-book-home-set query.
pub const ADDRESSBOOK_HOME_SET_BODY: &'static str = "<D:propfind xmlns:D=\"DAV:\" xmlns:C=\"urn:ietf:params:xml:ns:carddav\"><D:prop><C:addressbook-home-set /></D:prop></D:propfind>";

/// Body of the resource-type query.
pub const ADDRESSBOOK_BODY: &'static str = "<D:propfind xmlns:D=\"DAV:\"><D:prop><D:resourcetype /></D:prop></D:propfind>";

/// Body of the bulk query: entity tag, last modification and card text of
/// every member.
pub const ADDRESS_DATA_BODY: &'static str = "<C:addressbook-query xmlns:D=\"DAV:\" xmlns:C=\"urn:ietf:params:xml:ns:carddav\"><D:prop><D:getetag /><D:getlastmodified /><C:address-data /></D:prop></C:addressbook-query>";

fn copy_status(s: &Option<Status>) -> (r: Option<Status>)
    ensures
        match s {
            Some(a) => r matches Some(b) && b.value@ == a.value@,
            None => r is None,
        },
{
    match s {
        Some(a) => Some(Status { value: a.value.clone() }),
        None => None,
    }
}

/// The decoded entry matches the raw one, its date being `date`.
pub open spec fn decoded_as(
    raw: Response<RawAddressDataProp>,
    r: Response<AddressDataProp>,
    date: Timestamp,
) -> bool {
    &&& r.href.value@ == raw.href.value@
    &&& r.propstat.prop.address_data.value@ == raw.propstat.prop.address_data.value@
    &&& r.propstat.prop.getetag.value@ == raw.propstat.prop.getetag.value@
    &&& r.propstat.prop.getlastmodified.value == date
    &&& (r.propstat.status is Some <==> raw.propstat.status is Some)
    &&& (r.propstat.status is Some ==> r.propstat.status->Some_0.value@
        == raw.propstat.status->Some_0.value@)
}

/// Pairs the raw bulk answer with the dates read from it, one per entry:
/// fails as malformed when any date could not be read, else gives the
/// entries with their dates.
pub fn assemble_address_data(
    raw: &Multistatus<RawAddressDataProp>,
    dates: &Vec<Option<Timestamp>>,
) -> (r: Result<Multistatus<AddressDataProp>, SyncError>)
    requires
        dates@.len() == raw.responses@.len(),
    ensures
        r is Err <==> exists|i: int| 0 <= i < dates@.len() && dates@[i] is None,
        r matches Err(e) ==> e == SyncError::MalformedResponse,
        r matches Ok(m) ==> {
            &&& m.responses@.len() == raw.responses@.len()
            &&& forall|i: int|
                0 <= i < m.responses@.len() ==> decoded_as(
                    raw.responses@[i],
                    #[trigger] m.responses@[i],
                    dates@[i]->Some_0,
                )
        },
{
    let mut out: Vec<Response<AddressDataProp>> = Vec::new();
    let mut i: usize = 0;
    while i < raw.responses.len()
        invariant
            i <= raw.responses@.len(),
            dates@.len() == raw.responses@.len(),
            out@.len() == i,
            forall|k: int| 0 <= k < i ==> dates@[k] is Some,
            forall|k: int|
                0 <= k < i ==> decoded_as(raw.responses@[k], #[trigger] out@[k], dates@[k]->Some_0),
        decreases raw.responses@.len() - i,
    {
        let date = match dates[i] {
            Some(d) => d,
            None => {
                return Err(SyncError::MalformedResponse);
            },
        };
        let entry = &raw.responses[i];
        let prop = &entry.propstat.prop;
        out.push(
            Response {
                href: Href { value: entry.href.value.clone() },
                propstat: Propstat {
                    prop: AddressDataProp {
                        address_data: AddressData { value: prop.address_data.value.clone() },
                        getetag: Etag { value: prop.getetag.value.clone() },
                        getlastmodified: LastModified { value: date },
                    },
                    status: copy_status(&entry.propstat.status),
                },
            },
        );
        i = i + 1;
    }
    Ok(Multistatus { responses: out })
}

/// Reads the dates of a raw bulk answer as RFC 2822 instants: fails as
/// malformed when any of them cannot be read, so that no entry is silently
/// lost to a bad date.
pub fn decode_address_data(raw: &Multistatus<RawAddressDataProp>) -> (r: Result<
    Multistatus<AddressDataProp>,
    SyncError,
>)
    ensures
        r is Err <==> exists|i: int|
            0 <= i < raw.responses@.len() && rfc2822_instant(
                (#[trigger] raw.responses@[i]).propstat.prop.getlastmodified.value@,
            ) is None,
        r matches Err(e) ==> e == SyncError::MalformedResponse,
        r matches Ok(m) ==> {
            &&& m.responses@.len() == raw.responses@.len()
            &&& forall|i: int|
                0 <= i < m.responses@.len() ==> decoded_as(
                    raw.responses@[i],
                    #[trigger] m.responses@[i],
                    rfc2822_instant(raw.responses@[i].propstat.prop.getlastmodified.value@)->Some_0,
                )
        },
{
    let mut dates: Vec<Option<Timestamp>> = Vec::new();
    let mut i: usize = 0;
    while i < raw.responses.len()
        invariant
            i <= raw.responses@.len(),
            dates@.len() == i,
            forall|k: int|
                0 <= k < i ==> #[trigger] dates@[k] == rfc2822_instant(
                    raw.responses@[k].propstat.prop.getlastmodified.value@,
                ),
        decreases raw.responses@.len() - i,
    {
        let d = parse_rfc2822(raw.responses[i].propstat.prop.getlastmodified.value.as_str());
        dates.push(d);
        i = i + 1;
    }
    let r = assemble_address_data(raw, &dates);
    proof {
        if r is Err {
            let i = choose|i: int| 0 <= i < dates@.len() && dates@[i] is None;
            assert(rfc2822_instant(raw.responses@[i].propstat.prop.getlastmodified.value@) is None);
        }
        if exists|i: int|
            0 <= i < raw.responses@.len() && rfc2822_instant(
                (#[trigger] raw.responses@[i]).propstat.prop.getlastmodified.value@,
            ) is None {
            let i = choose|i: int|
                0 <= i < raw.responses@.len() && rfc2822_instant(
                    (#[trigger] raw.responses@[i]).propstat.prop.getlastmodified.value@,
                ) is None;
            assert(dates@[i] is None);
        }
    }
    r
}

} // verus!
