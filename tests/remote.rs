use cardamom::codec::{
    decode_address_data, AddressData, Etag, Href, Multistatus, Propstat, RawAddressDataProp,
    RawLastModified, Response, Status, SyncError,
};
use cardamom::remote::{collect_cards, plan_cards};
use cardamom::time::Timestamp;

fn raw_member(href: &str, date: &str, data: &str) -> Response<RawAddressDataProp> {
    Response {
        href: Href { value: href.to_string() },
        propstat: Propstat {
            prop: RawAddressDataProp {
                address_data: AddressData { value: data.to_string() },
                getetag: Etag { value: format!("etag-{}", href) },
                getlastmodified: RawLastModified { value: date.to_string() },
            },
            status: Some(Status { value: "HTTP/1.1 200 OK".to_string() }),
        },
    }
}

const DATE: &str = "Tue, 1 Jul 2003 10:52:37 +0200";

#[test]
fn decode_reads_rfc2822_dates_in_utc() {
    let raw = Multistatus { responses: vec![raw_member("/c/a.vcf", DATE, "A")] };
    let decoded = decode_address_data(&raw).unwrap();
    assert_eq!(decoded.responses.len(), 1);
    let prop = &decoded.responses[0].propstat.prop;
    assert_eq!(
        prop.getlastmodified.value,
        Timestamp { year: 2003, month: 7, day: 1, hour: 8, minute: 52, second: 37, nanosecond: 0 }
    );
    assert_eq!(prop.getetag.value, "etag-/c/a.vcf");
    assert_eq!(decoded.responses[0].href.value, "/c/a.vcf");
}

#[test]
fn decode_fails_on_unparsable_date() {
    let raw = Multistatus {
        responses: vec![raw_member("/c/a.vcf", DATE, "A"), raw_member("/c/b.vcf", "not-a-date", "B")],
    };
    assert!(matches!(decode_address_data(&raw), Err(SyncError::MalformedResponse)));
}

#[test]
fn decode_empty_answer() {
    let raw: Multistatus<RawAddressDataProp> = Multistatus { responses: vec![] };
    assert_eq!(decode_address_data(&raw).unwrap().responses.len(), 0);
}

#[test]
fn plan_drops_nameless_members() {
    let raw = Multistatus {
        responses: vec![
            raw_member("/addressbooks/u/contacts/alice.vcf", DATE, "BEGIN:VCARD\r\nEND:VCARD\r\r"),
            raw_member("/", DATE, "X"),
            raw_member("/addressbooks/u/contacts/bob.vcf", DATE, "B\r"),
            raw_member("..", DATE, "Y"),
        ],
    };
    let decoded = decode_address_data(&raw).unwrap();
    let files = plan_cards(&decoded);
    assert_eq!(files.len(), 2);
    assert_eq!(files[0].name, "alice");
    assert_eq!(files[0].file_name, "alice.vcf");
    assert_eq!(files[0].content, "BEGIN:VCARD\r\nEND:VCARD");
    assert_eq!(files[1].name, "bob");
    assert_eq!(files[1].content, "B");
    assert_eq!(files[1].etag, "etag-/addressbooks/u/contacts/bob.vcf");
}

#[test]
fn collect_keeps_written_cards() {
    let raw = Multistatus {
        responses: vec![
            raw_member("/c/a.vcf", DATE, "A"),
            raw_member("/c/b.vcf", DATE, "B"),
            raw_member("/c/c.vcf", DATE, "C"),
        ],
    };
    let files = plan_cards(&decode_address_data(&raw).unwrap());
    let cards = collect_cards(&files, &vec![true, false, true]);
    assert_eq!(cards.len(), 2);
    assert_eq!(cards[0].name, "a");
    assert_eq!(cards[1].name, "c");
    assert_eq!(cards[1].etag, "etag-/c/c.vcf");
    assert_eq!(cards[1].date.hour, 8);
}
