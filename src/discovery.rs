//! Discovery of the address-book collection: from the root, to the user's
//! principal, to the home set, to the collection, each step keeping the
//! previous path when the server names nothing.
use crate::codec::{AddressbookHomeSetProp, AddressbookProp, CurrentUserPrincipalProp, Multistatus, Response};
use crate::text::chars_of;
use vstd::prelude::*;

verus! {

/// The path that discovery starts from.
pub open spec fn root() -> Seq<char> {
    seq!['/']
}

/// The principal step: the first reference answered, else the path kept.
pub open spec fn principal_step(path: Seq<char>, res: Multistatus<CurrentUserPrincipalProp>) -> Seq<char> {
    if res.responses@.len() > 0 {
        res.responses@[0].propstat.prop.current_user_principal.href.value@
    } else {
        path
    }
}

/// The home-set step: the first reference answered, else the path kept.
pub open spec fn home_set_step(path: Seq<char>, res: Multistatus<AddressbookHomeSetProp>) -> Seq<char> {
    if res.responses@.len() > 0 {
        res.responses@[0].propstat.prop.addressbook_home_set.href.value@
    } else {
        path
    }
}

/// `s` ends with `200 OK`.
pub open spec fn ends_with_ok(s: Seq<char>) -> bool {
    s.len() >= 6 && s.subrange(s.len() - 6, s.len() as int) == seq!['2', '0', '0', ' ', 'O', 'K']
}

/// The member is the address-book collection: its status ends with
/// `200 OK` and its resource type holds the address-book marker.
pub open spec fn is_collection(r: Response<AddressbookProp>) -> bool {
    &&& r.propstat.status matches Some(s) && ends_with_ok(s.value@)
    &&& r.propstat.prop.resourcetype.addressbook is Some
}

/// Index of the first collection among the members, or their number.
pub open spec fn first_collection(rs: Seq<Response<AddressbookProp>>) -> int
    decreases rs.len(),
{
    if rs.len() == 0 {
        0
    } else if is_collection(rs[0]) {
        0
    } else {
        1 + first_collection(rs.drop_first())
    }
}

/// The collection step: the reference of the first collection member, else
/// the path kept.
pub open spec fn collection_step(path: Seq<char>, res: Multistatus<AddressbookProp>) -> Seq<char> {
    let i = first_collection(res.responses@);
    if i < res.responses@.len() {
        res.responses@[i].href.value@
    } else {
        path
    }
}

/// The path that the three steps lead to from the root.
pub open spec fn discovered(
    r1: Multistatus<CurrentUserPrincipalProp>,
    r2: Multistatus<AddressbookHomeSetProp>,
    r3: Multistatus<AddressbookProp>,
) -> Seq<char> {
    collection_step(home_set_step(principal_step(root(), r1), r2), r3)
}

proof fn lemma_first_collection_at(rs: Seq<Response<AddressbookProp>>, i: int)
    requires
        0 <= i <= rs.len(),
        forall|k: int| 0 <= k < i ==> !is_collection(#[trigger] rs[k]),
        i == rs.len() || is_collection(rs[i]),
    ensures
        first_collection(rs) == i,
    decreases i,
{
    if i > 0 {
        let t = rs.drop_first();
        assert forall|k: int| 0 <= k < i - 1 implies !is_collection(#[trigger] t[k]) by {
            assert(t[k] == rs[k + 1]);
        }
        if i < rs.len() {
            assert(t[i - 1] == rs[i]);
        }
        lemma_first_collection_at(t, i - 1);
    }
}

/// The root path, `/`.
pub fn root_path() -> (r: String)
    ensures
        r@ == root(),
{
    proof {
        reveal_strlit("/");
    }
    String::from_str("/")
}

/// Resolves the principal: the first reference of the answer, else `path`.
pub fn principal_path(path: String, res: &Multistatus<CurrentUserPrincipalProp>) -> (r: String)
    ensures
        r@ == principal_step(path@, *res),
{
    if res.responses.len() > 0 {
        res.responses[0].propstat.prop.current_user_principal.href.value.clone()
    } else {
        path
    }
}

/// Resolves the home set: the first reference of the answer, else `path`.
pub fn home_set_path(path: String, res: &Multistatus<AddressbookHomeSetProp>) -> (r: String)
    ensures
        r@ == home_set_step(path@, *res),
{
    if res.responses.len() > 0 {
        res.responses[0].propstat.prop.addressbook_home_set.href.value.clone()
    } else {
        path
    }
}

/// Whether `s` ends with `200 OK`.
pub fn status_is_ok(s: &str) -> (r: bool)
    ensures
        r == ends_with_ok(s@),
{
    let cs = chars_of(s);
    let n = cs.len();
    if n < 6 {
        return false;
    }
    let r = cs[n - 6] == '2' && cs[n - 5] == '0' && cs[n - 4] == '0' && cs[n - 3] == ' '
        && cs[n - 2] == 'O' && cs[n - 1] == 'K';
    assert(r == (cs@.subrange(n - 6, n as int) =~= seq!['2', '0', '0', ' ', 'O', 'K']));
    r
}

/// Resolves the collection: the reference of the first member that is the
/// address-book collection, else `path`.
pub fn collection_path(path: String, res: &Multistatus<AddressbookProp>) -> (r: String)
    ensures
        r@ == collection_step(path@, *res),
{
    let rs = &res.responses;
    let mut i: usize = 0;
    while i < rs.len()
        invariant
            rs@ == res.responses@,
            i <= rs@.len(),
            forall|k: int| 0 <= k < i ==> !is_collection(#[trigger] rs@[k]),
        decreases rs@.len() - i,
    {
        let entry = &rs[i];
        let ok = match &entry.propstat.status {
            Some(s) => status_is_ok(s.value.as_str()),
            None => false,
        };
        assert(ok == (entry.propstat.status matches Some(s) && ends_with_ok(s.value@)));
        let marked = entry.propstat.prop.resourcetype.addressbook.is_some();
        assert(marked == entry.propstat.prop.resourcetype.addressbook is Some);
        if ok && marked {
            assert(is_collection(rs@[i as int]));
            proof {
                lemma_first_collection_at(rs@, i as int);
            }
            return entry.href.value.clone();
        }
        i = i + 1;
    }
    proof {
        lemma_first_collection_at(rs@, i as int);
    }
    path
}

/// When every step answers and the last names a collection, discovery ends
/// at the reference of the first collection member of the last answer,
/// having passed through the first references of the other two.
pub proof fn lemma_discovery_reaches_collection(
    r1: Multistatus<CurrentUserPrincipalProp>,
    r2: Multistatus<AddressbookHomeSetProp>,
    r3: Multistatus<AddressbookProp>,
)
    requires
        r1.responses@.len() > 0,
        r2.responses@.len() > 0,
        exists|i: int| 0 <= i < r3.responses@.len() && is_collection(#[trigger] r3.responses@[i]),
    ensures
        principal_step(root(), r1) == r1.responses@[0].propstat.prop.current_user_principal.href.value@,
        home_set_step(principal_step(root(), r1), r2)
            == r2.responses@[0].propstat.prop.addressbook_home_set.href.value@,
        first_collection(r3.responses@) < r3.responses@.len(),
        discovered(r1, r2, r3) == r3.responses@[first_collection(r3.responses@)].href.value@,
        is_collection(r3.responses@[first_collection(r3.responses@)]),
{
    let rs = r3.responses@;
    let j = choose|i: int| 0 <= i < rs.len() && is_collection(#[trigger] rs[i]);
    lemma_first_collection_bound(rs, j);
}

proof fn lemma_first_collection_bound(rs: Seq<Response<AddressbookProp>>, j: int)
    requires
        0 <= j < rs.len(),
        is_collection(rs[j]),
    ensures
        0 <= first_collection(rs) <= j,
        is_collection(rs[first_collection(rs)]),
    decreases j,
{
    if !is_collection(rs[0]) {
        assert(rs.drop_first()[j - 1] == rs[j]);
        lemma_first_collection_bound(rs.drop_first(), j - 1);
    }
}

/// A step whose answer names nothing keeps the path it was given.
pub proof fn lemma_discovery_fallback(
    path: Seq<char>,
    r1: Multistatus<CurrentUserPrincipalProp>,
    r2: Multistatus<AddressbookHomeSetProp>,
    r3: Multistatus<AddressbookProp>,
)
    ensures
        r1.responses@.len() == 0 ==> principal_step(path, r1) == path,
        r2.responses@.len() == 0 ==> home_set_step(path, r2) == path,
        (forall|i: int| 0 <= i < r3.responses@.len() ==> !is_collection(#[trigger] r3.responses@[i]))
            ==> collection_step(path, r3) == path,
{
    if forall|i: int| 0 <= i < r3.responses@.len() ==> !is_collection(#[trigger] r3.responses@[i]) {
        lemma_first_collection_at(r3.responses@, r3.responses@.len() as int);
    }
}

} // verus!
