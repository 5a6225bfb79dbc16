//! Contact cards fetched from the remote collection.
use crate::codec::{AddressDataProp, Multistatus, Response};
use crate::text::{trim_end_char, trim_end_matching};
use crate::time::Timestamp;
use vstd::prelude::*;

verus! {

/// A card of the remote collection: its name, entity tag and last
/// modification.
#[derive(Debug)]
pub struct Card {
    pub etag: String,
    pub name: String,
    pub date: Timestamp,
}

/// The record set keyed by name, to entity tag and date; of two cards with
/// one name the later wins.
pub open spec fn remote_map(cards: Seq<Card>) -> Map<Seq<char>, (Seq<char>, Timestamp)>
    decreases cards.len(),
{
    if cards.len() == 0 {
        Map::empty()
    } else {
        remote_map(cards.drop_last()).insert(
            cards.last().name@,
            (cards.last().etag@, cards.last().date),
        )
    }
}

/// Every card carries a valid instant.
pub open spec fn dates_wf(cards: Seq<Card>) -> bool {
    forall|i: int| 0 <= i < cards.len() ==> (#[trigger] cards[i]).date.wf()
}

/// The stem of the last component of a path, as std reads it.
pub uninterp spec fn file_stem_of(s: Seq<char>) -> Option<Seq<char>>;

/// Relies on std's `Path::file_stem`: the stem of the reference's last
/// component, if it has one; a function of the text.
#[verifier::external_body]
fn file_stem(href: &str) -> (r: Option<String>)
    ensures
        match r {
            Some(x) => file_stem_of(href@) == Some(x@),
            None => file_stem_of(href@) is None,
        },
{
    std::path::Path::new(href).file_stem().map(|s| s.to_string_lossy().into_owned())
}

/// A fetched card ready to be stored: its name, the file it goes to, the
/// text to write, its entity tag and last modification.
#[derive(Debug)]
pub struct CardFile {
    pub name: String,
    pub file_name: String,
    pub content: String,
    pub etag: String,
    pub date: Timestamp,
}

pub struct CardFileView {
    pub name: Seq<char>,
    pub file_name: Seq<char>,
    pub content: Seq<char>,
    pub etag: Seq<char>,
    pub date: Timestamp,
}

impl View for CardFile {
    type V = CardFileView;

    open spec fn view(&self) -> CardFileView {
        CardFileView {
            name: self.name@,
            file_name: self.file_name@,
            content: self.content@,
            etag: self.etag@,
            date: self.date,
        }
    }
}

/// The file of a card named `name`: `<name>.vcf`.
pub open spec fn vcf_file(name: Seq<char>) -> Seq<char> {
    name + seq!['.', 'v', 'c', 'f']
}

/// What a member of the bulk answer becomes, if its reference gives a name:
/// the card text loses the carriage returns at its end.
pub open spec fn plan_of(r: Response<AddressDataProp>) -> Option<CardFileView> {
    match file_stem_of(r.href.value@) {
        Some(n) => Some(
            CardFileView {
                name: n,
                file_name: vcf_file(n),
                content: trim_end_char(r.propstat.prop.address_data.value@, '\r'),
                etag: r.propstat.prop.getetag.value@,
                date: r.propstat.prop.getlastmodified.value,
            },
        ),
        None => None,
    }
}

/// The planned cards of the members, in order; members without a name are
/// dropped.
pub open spec fn planned(rs: Seq<Response<AddressDataProp>>) -> Seq<CardFileView>
    decreases rs.len(),
{
    if rs.len() == 0 {
        Seq::empty()
    } else {
        match plan_of(rs.last()) {
            Some(c) => planned(rs.drop_last()).push(c),
            None => planned(rs.drop_last()),
        }
    }
}

/// How many members give no name.
pub open spec fn nameless(rs: Seq<Response<AddressDataProp>>) -> nat
    decreases rs.len(),
{
    if rs.len() == 0 {
        0
    } else {
        nameless(rs.drop_last()) + if plan_of(rs.last()) is None {
            1nat
        } else {
            0nat
        }
    }
}

/// The records of the cards that were stored, in order.
pub open spec fn kept(files: Seq<CardFileView>, written: Seq<bool>) -> Seq<
    (Seq<char>, Seq<char>, Timestamp),
>
    decreases files.len(),
{
    if files.len() == 0 || written.len() == 0 {
        Seq::empty()
    } else if written.last() {
        kept(files.drop_last(), written.drop_last()).push(
            (files.last().name, files.last().etag, files.last().date),
        )
    } else {
        kept(files.drop_last(), written.drop_last())
    }
}

/// A card's record: name, entity tag and date.
pub open spec fn record(c: Card) -> (Seq<char>, Seq<char>, Timestamp) {
    (c.name@, c.etag@, c.date)
}

/// Plans the storing of the members of the bulk answer: each member whose
/// reference gives a name becomes a card file; the others are dropped,
/// without failing, so that the cards planned are one fewer than the
/// members for each nameless one.
pub fn plan_cards(res: &Multistatus<AddressDataProp>) -> (r: Vec<CardFile>)
    ensures
        r@.map_values(|c: CardFile| c@) == planned(res.responses@),
        r@.len() + nameless(res.responses@) == res.responses@.len(),
{
    let rs = &res.responses;
    let mut out: Vec<CardFile> = Vec::new();
    let mut i: usize = 0;
    assert(rs@.take(0) =~= Seq::<Response<AddressDataProp>>::empty());
    assert(out@.map_values(|c: CardFile| c@) =~= Seq::<CardFileView>::empty());
    while i < rs.len()
        invariant
            rs@ == res.responses@,
            i <= rs@.len(),
            out@.map_values(|c: CardFile| c@) == planned(rs@.take(i as int)),
            out@.len() + nameless(rs@.take(i as int)) == i,
        decreases rs@.len() - i,
    {
        let entry = &rs[i];
        assert(rs@.take(i + 1).drop_last() =~= rs@.take(i as int));
        assert(rs@.take(i + 1).last() == rs@[i as int]);
        match file_stem(entry.href.value.as_str()) {
            Some(name) => {
                let mut file_name = name.clone();
                proof {
                    reveal_strlit(".vcf");
                }
                file_name.append(".vcf");
                let content = trim_end_matching(
                    entry.propstat.prop.address_data.value.as_str(),
                    '\r',
                );
                let card = CardFile {
                    name,
                    file_name,
                    content,
                    etag: entry.propstat.prop.getetag.value.clone(),
                    date: entry.propstat.prop.getlastmodified.value,
                };
                assert(file_name@ =~= vcf_file(name@));
                assert(plan_of(rs@[i as int]) == Some(card@));
                let ghost before = out@;
                out.push(card);
                assert(out@.map_values(|c: CardFile| c@) =~= before.map_values(|c: CardFile| c@).push(
                    card@,
                ));
            },
            None => {},
        }
        i = i + 1;
    }
    assert(rs@.take(i as int) =~= rs@);
    out
}

/// The records of the planned cards whose file was written; the others are
/// dropped.
pub fn collect_cards(files: &Vec<CardFile>, written: &Vec<bool>) -> (r: Vec<Card>)
    requires
        written@.len() == files@.len(),
    ensures
        r@.map_values(|c: Card| record(c)) == kept(files@.map_values(|c: CardFile| c@), written@),
{
    let ghost fv = files@.map_values(|c: CardFile| c@);
    let mut out: Vec<Card> = Vec::new();
    let mut i: usize = 0;
    assert(fv.take(0) =~= Seq::<CardFileView>::empty());
    assert(out@.map_values(|c: Card| record(c)) =~= kept(fv.take(0), written@.take(0)));
    while i < files.len()
        invariant
            written@.len() == files@.len(),
            fv == files@.map_values(|c: CardFile| c@),
            i <= files@.len(),
            out@.map_values(|c: Card| record(c)) == kept(fv.take(i as int), written@.take(i as int)),
        decreases files@.len() - i,
    {
        assert(fv.take(i + 1).drop_last() =~= fv.take(i as int));
        assert(written@.take(i + 1).drop_last() =~= written@.take(i as int));
        assert(fv.take(i + 1).last() == files@[i as int]@);
        if written[i] {
            let f = &files[i];
            let card = Card { etag: f.etag.clone(), name: f.name.clone(), date: f.date };
            let ghost before = out@;
            out.push(card);
            assert(out@.map_values(|c: Card| record(c)) =~= before.map_values(|c: Card| record(c)).push(
                record(card),
            ));
        }
        i = i + 1;
    }
    assert(fv.take(i as int) =~= fv);
    assert(written@.take(i as int) =~= written@);
    out
}

} // verus!
