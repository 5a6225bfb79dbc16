//! The reconciliation cache: per-card sync metadata for the names present on
//! both sides, and its line-oriented text form.
use crate::local::{self, local_map};
use crate::remote::{self, remote_map};
use crate::text::{
    joined_lines, lemma_split_fields_join, lemma_split_joined_lines, lemma_split_last_line,
    split_fields, split_fields_of, split_lines, split_lines_of, trim_ws, trim_ws_of, without_cr,
};
use crate::time::{
    format_rfc3339, lemma_rfc3339_text_plain, lemma_rfc3339_value_of_text, parse_rfc3339,
    rfc3339_text, rfc3339_value, Timestamp,
};
use vstd::prelude::*;

verus! {

/// Sync metadata of one card: its name, the remote entity tag, and the local
/// and remote modification instants.
#[derive(Debug)]
pub struct CacheItem {
    pub name: String,
    pub etag: String,
    pub local_date: Timestamp,
    pub remote_date: Timestamp,
}

pub struct CacheItemView {
    pub name: Seq<char>,
    pub etag: Seq<char>,
    pub local_date: Timestamp,
    pub remote_date: Timestamp,
}

impl View for CacheItem {
    type V = CacheItemView;

    open spec fn view(&self) -> CacheItemView {
        CacheItemView {
            name: self.name@,
            etag: self.etag@,
            local_date: self.local_date,
            remote_date: self.remote_date,
        }
    }
}

/// Why a cache line does not give an item.
#[derive(Clone, Copy, Debug, PartialEq, Eq, Structural)]
pub enum CacheItemError {
    NameNotFound,
    EtagNotFound,
    LocalDateNotFound,
    LocalDateInvalid,
    RemoteDateNotFound,
    RemoteDateInvalid,
}

/// Items keyed by name; of two items with one name the later wins.
pub open spec fn item_map(s: Seq<CacheItemView>) -> Map<Seq<char>, CacheItemView>
    decreases s.len(),
{
    if s.len() == 0 {
        Map::empty()
    } else {
        item_map(s.drop_last()).insert(s.last().name, s.last())
    }
}

/// The entries that pairing a local and a remote record set gives: one for
/// each name on both sides.
pub open spec fn reconciled(
    lm: Map<Seq<char>, Timestamp>,
    rm: Map<Seq<char>, (Seq<char>, Timestamp)>,
) -> Map<Seq<char>, CacheItemView> {
    Map::new(
        |k: Seq<char>| lm.contains_key(k) && rm.contains_key(k),
        |k: Seq<char>|
            CacheItemView { name: k, etag: rm[k].0, local_date: lm[k], remote_date: rm[k].1 },
    )
}

/// The text line of an item: name, entity tag and the two instants,
/// separated by `;`.
pub open spec fn item_line(v: CacheItemView) -> Seq<char> {
    v.name + seq![';'] + v.etag + seq![';'] + rfc3339_text(v.local_date) + seq![';']
        + rfc3339_text(v.remote_date)
}

/// What a cache line gives: its fields in order, the first failure winning;
/// name and entity tag lose their surrounding white space.
pub open spec fn item_result(line: Seq<char>) -> Result<CacheItemView, CacheItemError> {
    let f = split_fields(line, ';');
    if f.len() < 1 {
        Err(CacheItemError::NameNotFound)
    } else if f.len() < 2 {
        Err(CacheItemError::EtagNotFound)
    } else if f.len() < 3 {
        Err(CacheItemError::LocalDateNotFound)
    } else if rfc3339_value(f[2]) is None {
        Err(CacheItemError::LocalDateInvalid)
    } else if f.len() < 4 {
        Err(CacheItemError::RemoteDateNotFound)
    } else if rfc3339_value(f[3]) is None {
        Err(CacheItemError::RemoteDateInvalid)
    } else {
        Ok(
            CacheItemView {
                name: trim_ws(f[0]),
                etag: trim_ws(f[1]),
                local_date: rfc3339_value(f[2])->Some_0,
                remote_date: rfc3339_value(f[3])->Some_0,
            },
        )
    }
}

/// The items of the lines that parse, in order; the others are skipped.
pub open spec fn parsed_items(lines: Seq<Seq<char>>) -> Seq<CacheItemView>
    decreases lines.len(),
{
    if lines.len() == 0 {
        Seq::empty()
    } else {
        match item_result(lines.last()) {
            Ok(v) => parsed_items(lines.drop_last()).push(v),
            Err(_) => parsed_items(lines.drop_last()),
        }
    }
}

/// The change token of a cache text: its first line, empty when there is none.
pub open spec fn text_ctag(s: Seq<char>) -> Seq<char> {
    let lines = split_lines(s);
    if lines.len() > 0 {
        lines[0]
    } else {
        Seq::empty()
    }
}

/// The entries of a cache text: those of the lines after the first.
pub open spec fn text_entries(s: Seq<char>) -> Map<Seq<char>, CacheItemView> {
    let lines = split_lines(s);
    if lines.len() == 0 {
        Map::empty()
    } else {
        item_map(parsed_items(lines.drop_first()))
    }
}

/// The text of a cache: the change token on the first line, then one line
/// per item, each line ended by a newline.
pub open spec fn cache_text(ctag: Seq<char>, items: Seq<CacheItemView>) -> Seq<char> {
    joined_lines(seq![ctag] + items.map_values(|v: CacheItemView| item_line(v)))
}

/// A name or entity tag that the text form carries unchanged.
pub open spec fn plain_field(s: Seq<char>) -> bool {
    !s.contains(';') && !s.contains('\n')
}

impl CacheItemView {
    /// Both instants are valid.
    pub open spec fn wf(self) -> bool {
        self.local_date.wf() && self.remote_date.wf()
    }

    /// The item's line reads back as the item.
    pub open spec fn text_safe(self) -> bool {
        &&& plain_field(self.name)
        &&& plain_field(self.etag)
        &&& trim_ws(self.name) == self.name
        &&& trim_ws(self.etag) == self.etag
        &&& self.local_date.representable()
        &&& self.remote_date.representable()
    }
}

proof fn lemma_item_map_update(s: Seq<CacheItemView>, j: int, v: CacheItemView)
    requires
        0 <= j < s.len(),
        s[j].name == v.name,
        forall|i: int| 0 <= i < s.len() && i != j ==> s[i].name != v.name,
    ensures
        item_map(s.update(j, v)) == item_map(s).insert(v.name, v),
    decreases s.len(),
{
    let u = s.update(j, v);
    if j == s.len() - 1 {
        assert(u.drop_last() =~= s.drop_last());
        assert(item_map(u) =~= item_map(s).insert(v.name, v));
    } else {
        lemma_item_map_update(s.drop_last(), j, v);
        assert(u.drop_last() =~= s.drop_last().update(j, v));
        assert(item_map(u) =~= item_map(s).insert(v.name, v));
    }
}

proof fn lemma_local_map_last(cards: Seq<local::Card>, j: int)
    requires
        0 <= j < cards.len(),
        forall|i: int| j < i < cards.len() ==> cards[i].name@ != cards[j].name@,
    ensures
        local_map(cards).contains_key(cards[j].name@),
        local_map(cards)[cards[j].name@] == cards[j].date,
    decreases cards.len(),
{
    if j < cards.len() - 1 {
        lemma_local_map_last(cards.drop_last(), j);
    }
}

proof fn lemma_remote_map_last(cards: Seq<remote::Card>, j: int)
    requires
        0 <= j < cards.len(),
        forall|i: int| j < i < cards.len() ==> cards[i].name@ != cards[j].name@,
    ensures
        remote_map(cards).contains_key(cards[j].name@),
        remote_map(cards)[cards[j].name@] == (cards[j].etag@, cards[j].date),
    decreases cards.len(),
{
    if j < cards.len() - 1 {
        lemma_remote_map_last(cards.drop_last(), j);
    }
}

proof fn lemma_remote_map_absent(cards: Seq<remote::Card>, k: Seq<char>)
    requires
        forall|i: int| 0 <= i < cards.len() ==> cards[i].name@ != k,
    ensures
        !remote_map(cards).contains_key(k),
    decreases cards.len(),
{
    if cards.len() > 0 {
        lemma_remote_map_absent(cards.drop_last(), k);
    }
}

/// Index of the last remote card named `name`.
fn find_remote(rcards: &Vec<remote::Card>, name: &String) -> (r: Option<usize>)
    ensures
        match r {
            Some(j) => {
                &&& j < rcards@.len()
                &&& rcards@[j as int].name@ == name@
                &&& forall|i: int| j < i < rcards@.len() ==> rcards@[i].name@ != name@
            },
            None => forall|i: int| 0 <= i < rcards@.len() ==> rcards@[i].name@ != name@,
        },
{
    let mut j = rcards.len();
    while j > 0
        invariant
            j <= rcards@.len(),
            forall|i: int| j <= i < rcards@.len() ==> rcards@[i].name@ != name@,
        decreases j,
    {
        j = j - 1;
        if rcards[j].name == *name {
            return Some(j);
        }
    }
    None
}

impl CacheItem {
    /// The item's text line; for instants with a four-digit year it is
    /// `item_line`.
    pub fn to_string(&self) -> (r: String)
        requires
            self@.wf(),
        ensures
            self.local_date.representable() && self.remote_date.representable() ==> r@
                == item_line(self@),
    {
        let mut out = self.name.clone();
        proof {
            reveal_strlit(";");
        }
        out.append(";");
        out.append(self.etag.as_str());
        out.append(";");
        let local = format_rfc3339(self.local_date);
        out.append(local.as_str());
        out.append(";");
        let remote = format_rfc3339(self.remote_date);
        out.append(remote.as_str());
        out
    }

    /// Reads an item from a cache line: the name, entity tag, local instant
    /// and remote instant, separated by `;`; name and entity tag are trimmed
    /// of white space, and fields after the fourth are ignored.
    pub fn from_str(s: &str) -> (r: Result<CacheItem, CacheItemError>)
        ensures
            match r {
                Ok(item) => item_result(s@) == Ok::<CacheItemView, CacheItemError>(item@)
                    && item@.wf(),
                Err(e) => item_result(s@) == Err::<CacheItemView, CacheItemError>(e),
            },
    {
        let f = split_fields_of(s, ';');
        if f.len() < 1 {
            return Err(CacheItemError::NameNotFound);
        }
        if f.len() < 2 {
            return Err(CacheItemError::EtagNotFound);
        }
        if f.len() < 3 {
            return Err(CacheItemError::LocalDateNotFound);
        }
        let local_date = match parse_rfc3339(f[2].as_str()) {
            Some(d) => d,
            None => {
                return Err(CacheItemError::LocalDateInvalid);
            },
        };
        if f.len() < 4 {
            return Err(CacheItemError::RemoteDateNotFound);
        }
        let remote_date = match parse_rfc3339(f[3].as_str()) {
            Some(d) => d,
            None => {
                return Err(CacheItemError::RemoteDateInvalid);
            },
        };
        let name = trim_ws_of(f[0].as_str());
        let etag = trim_ws_of(f[1].as_str());
        Ok(CacheItem { name, etag, local_date, remote_date })
    }
}

/// The reconciliation cache: the collection's change token and one item per
/// card name.
#[derive(Debug)]
pub struct Cache {
    pub ctag: String,
    pub cards: Vec<CacheItem>,
}

impl Cache {
    pub open spec fn items(&self) -> Seq<CacheItemView> {
        self.cards@.map_values(|c: CacheItem| c@)
    }

    /// The entries keyed by name.
    pub open spec fn entries(&self) -> Map<Seq<char>, CacheItemView> {
        item_map(self.items())
    }

    /// Names are unique and every instant is valid.
    pub open spec fn wf(&self) -> bool {
        &&& forall|i: int, j: int|
            0 <= i < j < self.items().len() ==> self.items()[i].name != self.items()[j].name
        &&& forall|i: int| 0 <= i < self.items().len() ==> (#[trigger] self.items()[i]).wf()
    }

    /// Every instant has a four-digit year.
    pub open spec fn representable(&self) -> bool {
        forall|i: int|
            0 <= i < self.items().len() ==> (#[trigger] self.items()[i]).local_date.representable()
                && self.items()[i].remote_date.representable()
    }

    /// The cache's text form reads back as the cache.
    pub open spec fn text_safe(&self) -> bool {
        &&& !self.ctag@.contains('\n')
        &&& without_cr(self.ctag@) == self.ctag@
        &&& forall|i: int| 0 <= i < self.items().len() ==> (#[trigger] self.items()[i]).text_safe()
    }

    /// An empty cache with the given change token.
    pub fn new(ctag: String) -> (r: Cache)
        ensures
            r.wf(),
            r.ctag@ == ctag@,
            r.entries() == Map::<Seq<char>, CacheItemView>::empty(),
    {
        let r = Cache { ctag, cards: Vec::new() };
        assert(r.items() =~= Seq::<CacheItemView>::empty());
        r
    }

    /// Adds an item, replacing the one with the same name.
    pub fn insert(&mut self, item: CacheItem)
        requires
            old(self).wf(),
            item@.wf(),
        ensures
            final(self).wf(),
            final(self).ctag == old(self).ctag,
            final(self).entries() == old(self).entries().insert(item@.name, item@),
    {
        let ghost before = self.items();
        let mut j: usize = 0;
        while j < self.cards.len()
            invariant
                j <= self.cards@.len(),
                self.items() == before,
                forall|i: int| 0 <= i < j ==> before[i].name != item@.name,
            ensures
                j <= self.cards@.len(),
                self.items() == before,
                forall|i: int| 0 <= i < j ==> before[i].name != item@.name,
                j < self.cards@.len() ==> before[j as int].name == item@.name,
            decreases self.cards@.len() - j,
        {
            if self.cards[j].name == item.name {
                break;
            }
            j = j + 1;
        }
        if j < self.cards.len() {
            proof {
                assert forall|i: int| 0 <= i < before.len() && i != j implies before[i].name
                    != item@.name by {
                    if i > j {
                        assert(before[j as int].name != before[i].name);
                    }
                }
                lemma_item_map_update(before, j as int, item@);
            }
            self.cards.set(j, item);
            assert(self.items() =~= before.update(j as int, item@));
        } else {
            self.cards.push(item);
            assert(self.items() =~= before.push(item@));
            assert(self.items().drop_last() =~= before);
        }
    }

    /// Pairs the local and remote record sets by name: one item for each
    /// name present on both sides, with the local instant, and the remote
    /// entity tag and instant.
    pub fn build(ctag: String, lcards: &Vec<local::Card>, rcards: &Vec<remote::Card>) -> (r: Cache)
        requires
            local::dates_wf(lcards@),
            remote::dates_wf(rcards@),
        ensures
            r.wf(),
            r.ctag@ == ctag@,
            r.entries() == reconciled(local_map(lcards@), remote_map(rcards@)),
    {
        let ghost rm = remote_map(rcards@);
        let mut cache = Cache::new(ctag);
        let mut i: usize = 0;
        assert(lcards@.take(0) =~= Seq::<local::Card>::empty());
        assert(reconciled(local_map(lcards@.take(0)), rm) =~= Map::<
            Seq<char>,
            CacheItemView,
        >::empty());
        while i < lcards.len()
            invariant
                i <= lcards@.len(),
                local::dates_wf(lcards@),
                remote::dates_wf(rcards@),
                rm == remote_map(rcards@),
                cache.wf(),
                cache.ctag@ == ctag@,
                cache.entries() == reconciled(local_map(lcards@.take(i as int)), rm),
            decreases lcards@.len() - i,
        {
            let lcard = &lcards[i];
            let ghost k = lcard.name@;
            let ghost lm = local_map(lcards@.take(i as int));
            assert(lcards@.take(i + 1).drop_last() =~= lcards@.take(i as int));
            assert(local_map(lcards@.take(i + 1)) == lm.insert(k, lcard.date));
            match find_remote(rcards, &lcard.name) {
                Some(j) => {
                    let rcard = &rcards[j];
                    proof {
                        lemma_remote_map_last(rcards@, j as int);
                    }
                    let item = CacheItem {
                        name: lcard.name.clone(),
                        etag: rcard.etag.clone(),
                        local_date: lcard.date,
                        remote_date: rcard.date,
                    };
                    cache.insert(item);
                    assert(reconciled(lm.insert(k, lcard.date), rm) =~= reconciled(lm, rm).insert(
                        k,
                        item@,
                    ));
                },
                None => {
                    proof {
                        lemma_remote_map_absent(rcards@, k);
                    }
                    assert(reconciled(lm.insert(k, lcard.date), rm) =~= reconciled(lm, rm));
                },
            }
            i = i + 1;
        }
        assert(lcards@.take(lcards@.len() as int) =~= lcards@);
        cache
    }

    /// The text form: the change token on the first line, then one line per
    /// item, every line ended by a newline.
    pub fn to_text(&self) -> (r: String)
        requires
            self.wf(),
        ensures
            self.representable() ==> r@ == cache_text(self.ctag@, self.items()),
    {
        let ghost lines = seq![self.ctag@] + self.items().map_values(|v: CacheItemView| item_line(v));
        let mut out = self.ctag.clone();
        proof {
            reveal_strlit("\n");
        }
        out.append("\n");
        proof {
            assert(lines.take(1).drop_last() =~= Seq::<Seq<char>>::empty());
            assert(joined_lines(Seq::<Seq<char>>::empty()) == Seq::<char>::empty());
            assert(lines.take(1).last() == self.ctag@);
            assert(joined_lines(lines.take(1)) =~= out@);
        }
        let mut i: usize = 0;
        while i < self.cards.len()
            invariant
                self.wf(),
                i <= self.cards@.len(),
                lines == seq![self.ctag@] + self.items().map_values(
                    |v: CacheItemView| item_line(v),
                ),
                self.representable() ==> out@ == joined_lines(lines.take(i + 1)),
            decreases self.cards@.len() - i,
        {
            assert(self.items()[i as int] == self.cards@[i as int]@);
            assert(self.items()[i as int].wf());
            let line = self.cards[i].to_string();
            let ghost prev = out@;
            proof {
                reveal_strlit("\n");
            }
            out.append(line.as_str());
            out.append("\n");
            proof {
                assert(lines.take(i + 2).drop_last() =~= lines.take(i + 1));
                assert(lines.take(i + 2).last() == lines[i + 1]);
                assert(lines[i + 1] == item_line(self.items()[i as int]));
                if self.representable() {
                    assert(self.items()[i as int].local_date.representable());
                    assert(out@ =~= prev + line@ + seq!['\n']);
                }
            }
            i = i + 1;
        }
        assert(lines.take(i + 1) =~= lines);
        out
    }

    /// Reads a cache from its text form: the first line is the change token,
    /// every later line that parses gives an item, the others are skipped.
    pub fn parse(text: &str) -> (r: Cache)
        ensures
            r.wf(),
            r.ctag@ == text_ctag(text@),
            r.entries() == text_entries(text@),
    {
        let lines = split_lines_of(text);
        let ghost ls = split_lines(text@);
        let ctag = if lines.len() > 0 {
            lines[0].clone()
        } else {
            String::new()
        };
        let mut cache = Cache::new(ctag);
        if lines.len() == 0 {
            return cache;
        }
        let ghost rest = ls.drop_first();
        assert(rest.take(0) =~= Seq::<Seq<char>>::empty());
        let mut i: usize = 1;
        while i < lines.len()
            invariant
                1 <= i <= lines@.len(),
                lines@.len() == ls.len(),
                forall|k: int| 0 <= k < lines@.len() ==> (#[trigger] lines@[k])@ == ls[k],
                rest == ls.drop_first(),
                cache.wf(),
                cache.ctag@ == text_ctag(text@),
                cache.entries() == item_map(parsed_items(rest.take(i - 1))),
            decreases lines@.len() - i,
        {
            let ghost prefix = rest.take(i - 1);
            assert(rest.take(i as int).drop_last() =~= prefix);
            assert(rest.take(i as int).last() == lines@[i as int]@);
            match CacheItem::from_str(lines[i].as_str()) {
                Ok(item) => {
                    cache.insert(item);
                    assert(parsed_items(rest.take(i as int)) == parsed_items(prefix).push(item@));
                    assert(parsed_items(prefix).push(item@).drop_last() =~= parsed_items(prefix));
                },
                Err(_) => {},
            }
            i = i + 1;
        }
        assert(rest.take(i - 1) =~= rest);
        cache
    }
}

/// The line of a safe item splits into its four fields.
proof fn lemma_item_line_fields(v: CacheItemView)
    requires
        v.text_safe(),
    ensures
        split_fields(item_line(v), ';') == seq![
            v.name,
            v.etag,
            rfc3339_text(v.local_date),
            rfc3339_text(v.remote_date),
        ],
{
    let l = rfc3339_text(v.local_date);
    let r = rfc3339_text(v.remote_date);
    lemma_rfc3339_text_plain(v.local_date);
    lemma_rfc3339_text_plain(v.remote_date);
    assert(item_line(v) =~= v.name + seq![';'] + (v.etag + seq![';'] + (l + seq![';'] + r)));
    lemma_split_fields_join(v.name, v.etag + seq![';'] + (l + seq![';'] + r), ';');
    lemma_split_fields_join(v.etag, l + seq![';'] + r, ';');
    lemma_split_fields_join(l, r, ';');
    crate::text::lemma_first_index_absent(r, ';');
    assert(split_fields(r, ';') == seq![r]);
    assert(split_fields(item_line(v), ';') =~= seq![v.name, v.etag, l, r]);
}

/// A safe item reads back from its line.
proof fn lemma_item_line_reads_back(v: CacheItemView)
    requires
        v.text_safe(),
        v.wf(),
    ensures
        item_result(item_line(v)) == Ok::<CacheItemView, CacheItemError>(v),
{
    lemma_item_line_fields(v);
    lemma_rfc3339_value_of_text(v.local_date);
    lemma_rfc3339_value_of_text(v.remote_date);
}

proof fn lemma_parsed_item_lines(items: Seq<CacheItemView>)
    requires
        forall|i: int| 0 <= i < items.len() ==> (#[trigger] items[i]).text_safe() && items[i].wf(),
    ensures
        parsed_items(items.map_values(|v: CacheItemView| item_line(v))) == items,
    decreases items.len(),
{
    if items.len() > 0 {
        let lines = items.map_values(|v: CacheItemView| item_line(v));
        assert(lines.drop_last() =~= items.drop_last().map_values(|v: CacheItemView| item_line(v)));
        lemma_parsed_item_lines(items.drop_last());
        lemma_item_line_reads_back(items.last());
        assert(items.drop_last().push(items.last()) =~= items);
    }
}

/// Writing a cache as text and reading the text back gives the same change
/// token and the same entries, for a cache whose token holds no newline and
/// does not end in a carriage return, whose names and entity tags hold no
/// `;` or newline and no surrounding white space, and whose instants have
/// four-digit years.
pub proof fn lemma_round_trip(c: Cache)
    requires
        c.wf(),
        c.text_safe(),
        c.representable(),
    ensures
        text_ctag(cache_text(c.ctag@, c.items())) == c.ctag@,
        text_entries(cache_text(c.ctag@, c.items())) == c.entries(),
{
    let items = c.items();
    let item_lines = items.map_values(|v: CacheItemView| item_line(v));
    let lines = seq![c.ctag@] + item_lines;
    assert forall|k: int|
        0 <= k < lines.len() implies !(#[trigger] lines[k]).contains('\n') && without_cr(lines[k])
            == lines[k] by {
        if k > 0 {
            let v = items[k - 1];
            assert(v.text_safe());
            lemma_rfc3339_text_plain(v.local_date);
            lemma_rfc3339_text_plain(v.remote_date);
            let l = rfc3339_text(v.local_date);
            let r = rfc3339_text(v.remote_date);
            let line = item_line(v);
            assert(lines[k] == line);
            assert forall|m: int| 0 <= m < line.len() implies line[m] != '\n' by {
                let a = v.name.len() as int;
                let b = a + 1 + v.etag.len();
                let d = b + 1 + l.len();
                if m < a {
                    assert(line[m] == v.name[m]);
                } else if a < m < b {
                    assert(line[m] == v.etag[m - a - 1]);
                } else if b < m < d {
                    assert(line[m] == l[m - b - 1]);
                } else if d < m {
                    assert(line[m] == r[m - d - 1]);
                }
            }
            assert(line.last() == r.last());
            assert(r.last() == 'Z');
        }
    }
    lemma_split_joined_lines(lines, Seq::empty());
    assert(joined_lines(lines) + Seq::<char>::empty() =~= joined_lines(lines));
    assert(lines + split_lines(Seq::<char>::empty()) =~= lines);
    assert(lines.drop_first() =~= item_lines);
    assert forall|i: int| 0 <= i < items.len() implies (#[trigger] items[i]).text_safe()
        && items[i].wf() by {
        assert(items[i].text_safe());
    }
    lemma_parsed_item_lines(items);
}

/// Reconciliation is an inner join: the cache holds exactly the names found
/// in both record sets, each with the local instant and the remote entity
/// tag and instant.
pub proof fn lemma_reconcile_inner_join(lcards: Seq<local::Card>, rcards: Seq<remote::Card>)
    ensures
        reconciled(local_map(lcards), remote_map(rcards)).dom() == local_map(lcards).dom()
            .intersect(remote_map(rcards).dom()),
        forall|k: Seq<char>|
            #[trigger] reconciled(local_map(lcards), remote_map(rcards)).contains_key(k) ==> {
                let e = reconciled(local_map(lcards), remote_map(rcards))[k];
                &&& e.name == k
                &&& e.local_date == local_map(lcards)[k]
                &&& e.etag == remote_map(rcards)[k].0
                &&& e.remote_date == remote_map(rcards)[k].1
            },
{
    assert(reconciled(local_map(lcards), remote_map(rcards)).dom() =~= local_map(lcards).dom()
        .intersect(remote_map(rcards).dom()));
}

proof fn lemma_parsed_items_concat(a: Seq<Seq<char>>, b: Seq<Seq<char>>)
    ensures
        parsed_items(a + b) == parsed_items(a) + parsed_items(b),
    decreases b.len(),
{
    if b.len() == 0 {
        assert(a + b =~= a);
        assert(parsed_items(a) + parsed_items(b) =~= parsed_items(a));
    } else {
        lemma_parsed_items_concat(a, b.drop_last());
        assert((a + b).drop_last() =~= a + b.drop_last());
        assert((a + b).last() == b.last());
        match item_result(b.last()) {
            Ok(v) => {
                assert(parsed_items(a) + parsed_items(b.drop_last()).push(v) =~= (parsed_items(a)
                    + parsed_items(b.drop_last())).push(v));
            },
            Err(_) => {},
        }
    }
}

/// A cache line that does not parse is skipped: the items read from the
/// lines around it are those read without it.
pub proof fn lemma_malformed_line_skipped(
    before: Seq<Seq<char>>,
    bad: Seq<char>,
    after: Seq<Seq<char>>,
)
    requires
        item_result(bad) is Err,
    ensures
        parsed_items(before + seq![bad] + after) == parsed_items(before + after),
{
    lemma_parsed_items_concat(before + seq![bad], after);
    lemma_parsed_items_concat(before, after);
    assert((before + seq![bad]).drop_last() =~= before);
}

proof fn lemma_item_map_dom(s: Seq<CacheItemView>)
    ensures
        item_map(s).dom().finite(),
        forall|k: Seq<char>|
            item_map(s).contains_key(k) <==> exists|i: int| 0 <= i < s.len() && s[i].name == k,
    decreases s.len(),
{
    if s.len() > 0 {
        let t = s.drop_last();
        lemma_item_map_dom(t);
        assert forall|k: Seq<char>|
            item_map(s).contains_key(k) <==> exists|i: int| 0 <= i < s.len() && s[i].name == k by {
            if item_map(s).contains_key(k) && k != s.last().name {
                let i = choose|i: int| 0 <= i < t.len() && t[i].name == k;
                assert(s[i] == t[i]);
            }
            if exists|i: int| 0 <= i < s.len() && s[i].name == k {
                let i = choose|i: int| 0 <= i < s.len() && s[i].name == k;
                if i < s.len() - 1 {
                    assert(t[i] == s[i]);
                }
            }
        }
    }
}

/// Items with distinct names give one entry each.
proof fn lemma_item_map_len(s: Seq<CacheItemView>)
    requires
        forall|i: int, j: int| 0 <= i < j < s.len() ==> s[i].name != s[j].name,
    ensures
        item_map(s).dom().len() == s.len(),
    decreases s.len(),
{
    if s.len() > 0 {
        let t = s.drop_last();
        lemma_item_map_len(t);
        lemma_item_map_dom(t);
        if item_map(t).contains_key(s.last().name) {
            let i = choose|i: int| 0 <= i < t.len() && t[i].name == s.last().name;
            assert(s[i].name == s[s.len() - 1].name);
        }
        assert(item_map(s).dom() == item_map(t).dom().insert(s.last().name));
    }
}

proof fn lemma_parsed_items_all_ok(ls: Seq<Seq<char>>)
    requires
        forall|i: int| 0 <= i < ls.len() ==> item_result(#[trigger] ls[i]) is Ok,
    ensures
        parsed_items(ls).len() == ls.len(),
        forall|i: int|
            0 <= i < ls.len() ==> parsed_items(ls)[i] == item_result(#[trigger] ls[i])->Ok_0,
    decreases ls.len(),
{
    if ls.len() > 0 {
        let t = ls.drop_last();
        assert forall|i: int| 0 <= i < t.len() implies item_result(#[trigger] t[i]) is Ok by {
            assert(t[i] == ls[i]);
        }
        lemma_parsed_items_all_ok(t);
        assert(item_result(ls[ls.len() - 1]) is Ok);
        assert forall|i: int|
            0 <= i < ls.len() implies parsed_items(ls)[i] == item_result(#[trigger] ls[i])->Ok_0 by {
            if i < ls.len() - 1 {
                assert(t[i] == ls[i]);
            }
        }
    }
}

/// A cache text whose lines after the token are K good lines with distinct
/// names and one line that does not parse reads as exactly K entries,
/// whether or not its last line is ended by a newline.
pub proof fn lemma_malformed_line_count(
    ctag: Seq<char>,
    before: Seq<Seq<char>>,
    bad: Seq<char>,
    after: Seq<Seq<char>>,
)
    requires
        !ctag.contains('\n') && without_cr(ctag) == ctag,
        !bad.contains('\n') && without_cr(bad) == bad,
        item_result(bad) is Err,
        forall|i: int|
            0 <= i < (before + after).len() ==> !(#[trigger] (before + after)[i]).contains('\n')
                && without_cr((before + after)[i]) == (before + after)[i]
                && item_result((before + after)[i]) is Ok,
        forall|i: int, j: int|
            0 <= i < j < (before + after).len() ==> item_result((before + after)[i])->Ok_0.name
                != item_result((before + after)[j])->Ok_0.name,
    ensures
        text_entries(joined_lines(seq![ctag] + before + seq![bad] + after)).dom().len()
            == before.len() + after.len(),
        (seq![ctag] + before + seq![bad] + after).last().len() > 0 ==> text_entries(
            joined_lines((seq![ctag] + before + seq![bad] + after).drop_last()) + (seq![ctag]
                + before + seq![bad] + after).last(),
        ).dom().len() == before.len() + after.len(),
{
    let good = before + after;
    let lines = seq![ctag] + before + seq![bad] + after;
    assert forall|k: int|
        0 <= k < lines.len() implies !(#[trigger] lines[k]).contains('\n') && without_cr(lines[k])
            == lines[k] by {
        if k == 0 {
        } else if k <= before.len() {
            assert(lines[k] == good[k - 1]);
        } else if k == before.len() + 1 {
        } else {
            assert(lines[k] == good[k - 2]);
        }
    }
    lemma_split_joined_lines(lines, Seq::empty());
    assert(joined_lines(lines) + Seq::<char>::empty() =~= joined_lines(lines));
    assert(lines + split_lines(Seq::<char>::empty()) =~= lines);
    let init = lines.drop_last();
    assert forall|k: int|
        0 <= k < init.len() implies !(#[trigger] init[k]).contains('\n') && without_cr(init[k])
            == init[k] by {
        assert(init[k] == lines[k]);
    }
    if lines.last().len() > 0 {
        lemma_split_joined_lines(init, lines.last());
        lemma_split_last_line(lines.last());
        assert(init + seq![lines.last()] =~= lines);
    }
    assert(lines.drop_first() =~= before + seq![bad] + after);
    lemma_malformed_line_skipped(before, bad, after);
    assert forall|i: int| 0 <= i < good.len() implies item_result(#[trigger] good[i]) is Ok by {}
    lemma_parsed_items_all_ok(good);
    let p = parsed_items(good);
    assert forall|i: int, j: int| 0 <= i < j < p.len() implies p[i].name != p[j].name by {
        assert(p[i] == item_result(good[i])->Ok_0);
        assert(p[j] == item_result(good[j])->Ok_0);
    }
    lemma_item_map_len(p);
}

} // verus!
