use cardamom::codec::{
    Addressbook, AddressbookHomeSet, AddressbookHomeSetProp, AddressbookProp,
    AddressbookResourceType, CurrentUserPrincipal, CurrentUserPrincipalProp, Href, Multistatus,
    Propstat, Response, Status,
};
use cardamom::discovery::{collection_path, home_set_path, principal_path, root_path, status_is_ok};

fn principal(href: &str) -> Multistatus<CurrentUserPrincipalProp> {
    Multistatus {
        responses: vec![Response {
            href: Href { value: "/".to_string() },
            propstat: Propstat {
                prop: CurrentUserPrincipalProp {
                    current_user_principal: CurrentUserPrincipal { href: Href { value: href.to_string() } },
                },
                status: None,
            },
        }],
    }
}

fn home_set(href: &str) -> Multistatus<AddressbookHomeSetProp> {
    Multistatus {
        responses: vec![Response {
            href: Href { value: "/p/".to_string() },
            propstat: Propstat {
                prop: AddressbookHomeSetProp {
                    addressbook_home_set: AddressbookHomeSet { href: Href { value: href.to_string() } },
                },
                status: None,
            },
        }],
    }
}

fn member(href: &str, status: Option<&str>, book: bool) -> Response<AddressbookProp> {
    Response {
        href: Href { value: href.to_string() },
        propstat: Propstat {
            prop: AddressbookProp {
                resourcetype: AddressbookResourceType { addressbook: if book { Some(Addressbook {}) } else { None } },
            },
            status: status.map(|s| Status { value: s.to_string() }),
        },
    }
}

#[test]
fn discovery_follows_each_answer() {
    let path = root_path();
    assert_eq!(path, "/");
    let path = principal_path(path, &principal("/principals/u/"));
    assert_eq!(path, "/principals/u/");
    let path = home_set_path(path, &home_set("/addressbooks/u/"));
    assert_eq!(path, "/addressbooks/u/");
    let members = Multistatus {
        responses: vec![
            member("/addressbooks/u/", Some("HTTP/1.1 200 OK"), false),
            member("/addressbooks/u/old/", Some("HTTP/1.1 404 Not Found"), true),
            member("/addressbooks/u/contacts/", Some("HTTP/1.1 200 OK"), true),
            member("/addressbooks/u/other/", Some("HTTP/1.1 200 OK"), true),
        ],
    };
    assert_eq!(collection_path(path, &members), "/addressbooks/u/contacts/");
}

#[test]
fn discovery_keeps_path_on_empty_answers() {
    let path = principal_path(root_path(), &Multistatus { responses: vec![] });
    assert_eq!(path, "/");
    let path = home_set_path(path, &Multistatus { responses: vec![] });
    assert_eq!(path, "/");
    let path = collection_path(path, &Multistatus { responses: vec![] });
    assert_eq!(path, "/");
}

#[test]
fn discovery_keeps_path_without_collection() {
    let members = Multistatus {
        responses: vec![
            member("/a/", None, true),
            member("/b/", Some("HTTP/1.1 200 OK"), false),
        ],
    };
    assert_eq!(collection_path("/home/".to_string(), &members), "/home/");
}

#[test]
fn status_suffix() {
    assert!(status_is_ok("HTTP/1.1 200 OK"));
    assert!(status_is_ok("200 OK"));
    assert!(!status_is_ok("OK"));
    assert!(!status_is_ok("HTTP/1.1 404 Not Found"));
}
