use vstd::prelude::*;

use crate::error::LinkError;
use crate::laws::{lemma_create_wf, lemma_delete_wf, lemma_update_wf, lemma_visit_wf};
use crate::radix::{encode_spec, to_d36};

verus! {

/// What a link record holds, as mathematical values. Timestamps are
/// milliseconds since the Unix epoch, in UTC.
pub struct LinkView {
    pub id: int,
    pub src: Seq<char>,
    pub num: nat,
    pub active: bool,
    pub created_at: int,
    pub updated_at: int,
}

/// A link record: a source URL, the identifier that the store gave it, its
/// visit counter, its active flag and its timestamps (milliseconds since the
/// Unix epoch, UTC).
pub struct Url {
    id: i64,
    src: String,
    num: u32,
    active: bool,
    created_at: i64,
    updated_at: i64,
}

/// The public projection of a link: its source, short code and visit count.
pub struct ShortUrl {
    pub src: String,
    pub short: String,
    pub num: u32,
}

impl View for Url {
    type V = LinkView;

    closed spec fn view(&self) -> LinkView {
        LinkView {
            id: self.id as int,
            src: self.src@,
            num: self.num as nat,
            active: self.active,
            created_at: self.created_at as int,
            updated_at: self.updated_at as int,
        }
    }
}

/// A record as the table keeps it: an identifier that fits a short code,
/// and a last update no earlier than the creation.
pub open spec fn link_wf(l: LinkView) -> bool {
    &&& 1 <= l.id <= u32::MAX
    &&& l.num <= u32::MAX
    &&& i64::MIN <= l.created_at <= l.updated_at <= i64::MAX
}

/// The later of two instants.
pub open spec fn later(a: int, b: int) -> int {
    if a < b {
        b
    } else {
        a
    }
}

impl Url {
    /// A record from the values of a stored row, where they form a valid
    /// record.
    pub fn from_parts(
        id: i64,
        src: String,
        num: u32,
        active: bool,
        created_at: i64,
        updated_at: i64,
    ) -> (r: Option<Url>)
        ensures
            r is Some <==> 1 <= id <= u32::MAX && created_at <= updated_at,
            r matches Some(u) ==> u@ == (LinkView {
                id: id as int,
                src: src@,
                num: num as nat,
                active,
                created_at: created_at as int,
                updated_at: updated_at as int,
            }),
    {
        if 1 <= id && id <= u32::MAX as i64 && created_at <= updated_at {
            Some(Url { id, src, num, active, created_at, updated_at })
        } else {
            None
        }
    }

    /// A copy of the record.
    pub fn copy(&self) -> (r: Url)
        ensures
            r@ == self@,
    {
        Url {
            id: self.id,
            src: self.src.clone(),
            num: self.num,
            active: self.active,
            created_at: self.created_at,
            updated_at: self.updated_at,
        }
    }

    pub fn get_id(&self) -> (r: i64)
        ensures
            r as int == self@.id,
    {
        self.id
    }

    pub fn get_src(&self) -> (r: &str)
        ensures
            r@ == self@.src,
    {
        self.src.as_str()
    }

    pub fn get_num(&self) -> (r: u32)
        ensures
            r as nat == self@.num,
    {
        self.num
    }

    pub fn is_active(&self) -> (r: bool)
        ensures
            r == self@.active,
    {
        self.active
    }

    pub fn get_created_at(&self) -> (r: i64)
        ensures
            r as int == self@.created_at,
    {
        self.created_at
    }

    pub fn get_updated_at(&self) -> (r: i64)
        ensures
            r as int == self@.updated_at,
    {
        self.updated_at
    }

    /// The short code of the record: its identifier, encoded.
    pub fn get_url(&self) -> (r: String)
        requires
            link_wf(self@),
        ensures
            r@ == encode_spec(self@.id as nat),
    {
        to_d36(self.id as u32)
    }

    /// The public projection of the record.
    pub fn get_short(&self) -> (r: ShortUrl)
        requires
            link_wf(self@),
        ensures
            r.src@ == self@.src,
            r.short@ == encode_spec(self@.id as nat),
            r.num as nat == self@.num,
    {
        ShortUrl { src: self.src.clone(), short: self.get_url(), num: self.num }
    }
}


/// The table of links as mathematical values: its rows, and the identifier
/// that the next inserted row receives.
pub struct TableView {
    pub rows: Seq<LinkView>,
    pub next_id: int,
}

/// The table's invariant: every row valid, with an identifier below the next
/// one; identifiers unique; sources unique.
pub open spec fn table_wf(t: TableView) -> bool {
    &&& 1 <= t.next_id <= u32::MAX + 1
    &&& forall|i: int|
        0 <= i < t.rows.len() ==> link_wf(#[trigger] t.rows[i]) && t.rows[i].id < t.next_id
    &&& forall|i: int, j: int|
        0 <= i < t.rows.len() && 0 <= j < t.rows.len() && i != j ==> #[trigger] t.rows[i].id
            != #[trigger] t.rows[j].id && t.rows[i].src != t.rows[j].src
}

/// Whether some row has the source `src`.
pub open spec fn has_src(rows: Seq<LinkView>, src: Seq<char>) -> bool {
    exists|i: int| 0 <= i < rows.len() && #[trigger] rows[i].src == src
}

/// The position of the row with the source `src`.
pub open spec fn src_index(rows: Seq<LinkView>, src: Seq<char>) -> int {
    choose|i: int| 0 <= i < rows.len() && #[trigger] rows[i].src == src
}

/// Whether some row has the identifier `id`.
pub open spec fn has_id(rows: Seq<LinkView>, id: int) -> bool {
    exists|i: int| 0 <= i < rows.len() && #[trigger] rows[i].id == id
}

/// The position of the row with the identifier `id`.
pub open spec fn id_index(rows: Seq<LinkView>, id: int) -> int {
    choose|i: int| 0 <= i < rows.len() && #[trigger] rows[i].id == id
}

/// A row as it is first stored.
pub open spec fn fresh_row(id: int, src: Seq<char>, now: int) -> LinkView {
    LinkView { id, src, num: 0, active: true, created_at: now, updated_at: now }
}

/// A record, or the error, as values.
pub open spec fn result_view(r: Result<Url, LinkError>) -> Result<LinkView, LinkError> {
    match r {
        Ok(u) => Ok(u@),
        Err(e) => Err(e),
    }
}

/// Insertion of a new source at time `now`: an empty source is refused; an
/// existing source is left as it is and no row is returned; otherwise the
/// row takes the next identifier, unless none is left.
pub open spec fn create_spec(t: TableView, src: Seq<char>, now: int) -> (TableView, Result<
    LinkView,
    LinkError,
>) {
    if src.len() == 0 {
        (t, Err(LinkError::ConstraintViolation))
    } else if has_src(t.rows, src) {
        (t, Err(LinkError::NotFound))
    } else if t.next_id > u32::MAX {
        (t, Err(LinkError::StorageUnavailable))
    } else {
        let row = fresh_row(t.next_id, src, now);
        (TableView { rows: t.rows.push(row), next_id: t.next_id + 1 }, Ok(row))
    }
}

/// The row with the source `src`.
pub open spec fn read_from_url_spec(t: TableView, src: Seq<char>) -> Result<LinkView, LinkError> {
    if has_src(t.rows, src) {
        Ok(t.rows[src_index(t.rows, src)])
    } else {
        Err(LinkError::NotFound)
    }
}

/// The row with the identifier `id`.
pub open spec fn read_spec(t: TableView, id: int) -> Result<LinkView, LinkError> {
    if has_id(t.rows, id) {
        Ok(t.rows[id_index(t.rows, id)])
    } else {
        Err(LinkError::NotFound)
    }
}

/// Get-or-create: the existing row for `src`, untouched; else a new row as
/// `create_spec` makes it.
pub open spec fn get_or_create_spec(t: TableView, src: Seq<char>, now: int) -> (TableView, Result<
    LinkView,
    LinkError,
>) {
    if src.len() > 0 && has_src(t.rows, src) {
        (t, read_from_url_spec(t, src))
    } else {
        create_spec(t, src, now)
    }
}

/// One visit of the row `id` at time `now`: the counter goes up by one and
/// the row is marked as updated; a counter at its largest value is refused.
pub open spec fn visit_spec(t: TableView, id: int, now: int) -> (TableView, Result<
    LinkView,
    LinkError,
>) {
    if !has_id(t.rows, id) {
        (t, Err(LinkError::NotFound))
    } else {
        let i = id_index(t.rows, id);
        let row = t.rows[i];
        if row.num >= u32::MAX {
            (t, Err(LinkError::ConstraintViolation))
        } else {
            let new_row = LinkView {
                id: row.id,
                src: row.src,
                num: row.num + 1,
                active: row.active,
                created_at: row.created_at,
                updated_at: later(now, row.created_at),
            };
            (TableView { rows: t.rows.update(i, new_row), next_id: t.next_id }, Ok(new_row))
        }
    }
}

/// A full update of the row `u.id` from `u` at time `now`: the counter and
/// the flag are taken from `u`; identifier, source and creation time stay;
/// the update time is `now`, or the creation time where that is later. A
/// counter below the stored one is refused, so that no count goes down.
pub open spec fn update_spec(t: TableView, u: LinkView, now: int) -> (TableView, Result<
    LinkView,
    LinkError,
>) {
    if !has_id(t.rows, u.id) {
        (t, Err(LinkError::NotFound))
    } else {
        let i = id_index(t.rows, u.id);
        let row = t.rows[i];
        if u.num < row.num {
            (t, Err(LinkError::ConstraintViolation))
        } else {
            let new_row = LinkView {
                id: row.id,
                src: row.src,
                num: u.num,
                active: u.active,
                created_at: row.created_at,
                updated_at: later(now, row.created_at),
            };
            (TableView { rows: t.rows.update(i, new_row), next_id: t.next_id }, Ok(new_row))
        }
    }
}

/// Removal of the row `id`, which is returned.
pub open spec fn delete_spec(t: TableView, id: int) -> (TableView, Result<LinkView, LinkError>) {
    if !has_id(t.rows, id) {
        (t, Err(LinkError::NotFound))
    } else {
        let i = id_index(t.rows, id);
        (TableView { rows: t.rows.remove(i), next_id: t.next_id }, Ok(t.rows[i]))
    }
}

/// Two rows of a valid table that share a source or an identifier are one row.
pub proof fn lemma_same_row(t: TableView, i: int, j: int)
    requires
        table_wf(t),
        0 <= i < t.rows.len(),
        0 <= j < t.rows.len(),
        t.rows[i].src == t.rows[j].src || t.rows[i].id == t.rows[j].id,
    ensures
        i == j,
{
    if i != j {
        assert(t.rows[i].id != t.rows[j].id);
    }
}

/// The table of links. Identifiers are handed out in order from 1 and never
/// reused; a source has at most one row.
pub struct LinkTable {
    rows: Vec<Url>,
    next_id: i64,
}

impl View for LinkTable {
    type V = TableView;

    closed spec fn view(&self) -> TableView {
        TableView { rows: self.rows@.map_values(|u: Url| u@), next_id: self.next_id as int }
    }
}

impl LinkTable {
    /// An empty table, whose first row will have the identifier 1.
    pub fn new() -> (r: LinkTable)
        ensures
            r@.rows == Seq::<LinkView>::empty(),
            r@.next_id == 1,
            table_wf(r@),
    {
        let r = LinkTable { rows: Vec::new(), next_id: 1 };
        assert(r@.rows =~= Seq::<LinkView>::empty());
        r
    }

    /// The number of rows.
    pub fn len(&self) -> (r: usize)
        ensures
            r as int == self@.rows.len(),
    {
        self.rows.len()
    }

    fn find_src(&self, src: &String) -> (r: Option<usize>)
        requires
            table_wf(self@),
        ensures
            r is Some <==> has_src(self@.rows, src@),
            r matches Some(i) ==> i == src_index(self@.rows, src@) && i < self@.rows.len(),
    {
        let mut i: usize = 0;
        while i < self.rows.len()
            invariant
                table_wf(self@),
                i <= self.rows@.len(),
                forall|j: int| 0 <= j < i ==> #[trigger] self@.rows[j].src != src@,
            decreases self.rows@.len() - i,
        {
            if self.rows[i].src == *src {
                assert(self@.rows[i as int].src == src@);
                proof {
                    lemma_same_row(self@, i as int, src_index(self@.rows, src@));
                }
                return Some(i);
            }
            i = i + 1;
        }
        None
    }

    fn find_id(&self, id: i64) -> (r: Option<usize>)
        requires
            table_wf(self@),
        ensures
            r is Some <==> has_id(self@.rows, id as int),
            r matches Some(i) ==> i == id_index(self@.rows, id as int) && i < self@.rows.len(),
    {
        let mut i: usize = 0;
        while i < self.rows.len()
            invariant
                table_wf(self@),
                i <= self.rows@.len(),
                forall|j: int| 0 <= j < i ==> #[trigger] self@.rows[j].id != id,
            decreases self.rows@.len() - i,
        {
            if self.rows[i].id == id {
                assert(self@.rows[i as int].id == id);
                proof {
                    lemma_same_row(self@, i as int, id_index(self@.rows, id as int));
                }
                return Some(i);
            }
            i = i + 1;
        }
        None
    }
}


/// Whether a count of matching rows shows a row, where a failed count reads
/// as none.
pub fn found_from_count(count: Option<i64>) -> (r: bool)
    ensures
        r == (count matches Some(c) && c > 0),
{
    match count {
        Some(c) => c > 0,
        None => false,
    }
}

/// The rule on a source before any insert: an empty one is refused.
pub fn check_source(src: &str) -> (r: Option<LinkError>)
    ensures
        r is Some <==> src@.len() == 0,
        r matches Some(e) ==> e == LinkError::ConstraintViolation,
{
    if src.unicode_len() == 0 {
        Some(LinkError::ConstraintViolation)
    } else {
        None
    }
}

/// Get-or-create, after its insert-or-ignore: an insert that was made, or
/// ignored for an existing source (`NotFound`), goes on to the re-read; any
/// other failure ends the operation with that error.
pub fn after_insert(inserted: Result<(), LinkError>) -> (r: Option<LinkError>)
    ensures
        r is None <==> (inserted is Ok || inserted == Err::<(), LinkError>(LinkError::NotFound)),
        r matches Some(e) ==> inserted == Err::<(), LinkError>(e),
{
    match inserted {
        Ok(()) => None,
        Err(LinkError::NotFound) => None,
        Err(e) => Some(e),
    }
}

/// Get-or-create, after its re-read: the row read is the result; a missing
/// row after the insert breaks the uniqueness rule and is reported as such.
pub fn after_reread(read: Result<Url, LinkError>) -> (r: Result<Url, LinkError>)
    ensures
        result_view(read) == Err::<LinkView, LinkError>(LinkError::NotFound) ==> r == Err::<
            Url,
            LinkError,
        >(LinkError::ConstraintViolation),
        result_view(read) != Err::<LinkView, LinkError>(LinkError::NotFound) ==> result_view(r)
            == result_view(read),
{
    match read {
        Ok(u) => Ok(u),
        Err(LinkError::NotFound) => Err(LinkError::ConstraintViolation),
        Err(e) => Err(e),
    }
}

/// A full update, after a conditional statement that writes only a count no
/// lower than the stored one: where no row was written although the row is
/// `present`, the count was lower, which the table refuses.
pub fn after_update(updated: Result<Url, LinkError>, present: bool) -> (r: Result<Url, LinkError>)
    ensures
        result_view(updated) == Err::<LinkView, LinkError>(LinkError::NotFound) && present ==> r
            == Err::<Url, LinkError>(LinkError::ConstraintViolation),
        !(result_view(updated) == Err::<LinkView, LinkError>(LinkError::NotFound) && present)
            ==> result_view(r) == result_view(updated),
{
    match updated {
        Err(LinkError::NotFound) => {
            if present {
                Err(LinkError::ConstraintViolation)
            } else {
                Err(LinkError::NotFound)
            }
        },
        other => other,
    }
}

impl Url {
    /// Inserts a row for `src` at time `now`; see `create_spec`.
    pub fn create(table: &mut LinkTable, src: &str, now: i64) -> (r: Result<Url, LinkError>)
        requires
            table_wf(old(table)@),
        ensures
            table_wf(final(table)@),
            (final(table)@, result_view(r)) == create_spec(old(table)@, src@, now as int),
    {
        if let Some(e) = check_source(src) {
            return Err(e);
        }
        let s = src.to_owned();
        if table.find_src(&s).is_some() {
            return Err(LinkError::NotFound);
        }
        if table.next_id > u32::MAX as i64 {
            return Err(LinkError::StorageUnavailable);
        }
        let row = Url {
            id: table.next_id,
            src: s,
            num: 0,
            active: true,
            created_at: now,
            updated_at: now,
        };
        let out = row.copy();
        let ghost t0 = table@;
        table.rows.push(row);
        table.next_id = table.next_id + 1;
        proof {
            assert(table@.rows =~= t0.rows.push(out@));
            lemma_create_wf(t0, src@, now as int);
        }
        Ok(out)
    }

    /// The row with the source `src`.
    pub fn read_from_url(table: &LinkTable, src: &str) -> (r: Result<Url, LinkError>)
        requires
            table_wf(table@),
        ensures
            result_view(r) == read_from_url_spec(table@, src@),
    {
        let s = src.to_owned();
        match table.find_src(&s) {
            Some(i) => Ok(table.rows[i].copy()),
            None => Err(LinkError::NotFound),
        }
    }

    /// Get-or-create at time `now`: an insert that leaves an existing source
    /// alone, then a read of the row for `src` in every case.
    pub fn read_or_create(table: &mut LinkTable, src: &str, now: i64) -> (r: Result<
        Url,
        LinkError,
    >)
        requires
            table_wf(old(table)@),
        ensures
            table_wf(final(table)@),
            (final(table)@, result_view(r)) == get_or_create_spec(old(table)@, src@, now as int),
    {
        let inserted = match Self::create(table, src, now) {
            Ok(_) => Ok(()),
            Err(e) => Err(e),
        };
        if let Some(e) = after_insert(inserted) {
            return Err(e);
        }
        proof {
            let t1 = table@;
            if inserted is Ok {
                let k = t1.rows.len() - 1;
                assert(t1.rows[k].src == src@);
                lemma_same_row(t1, k, src_index(t1.rows, src@));
            }
        }
        after_reread(Self::read_from_url(table, src))
    }

    /// Whether a row has the identifier `id`.
    pub fn exists_id(table: &LinkTable, id: i64) -> (r: bool)
        requires
            table_wf(table@),
        ensures
            r == has_id(table@.rows, id as int),
    {
        table.find_id(id).is_some()
    }

    /// The row with the identifier `id`.
    pub fn read(table: &LinkTable, id: i64) -> (r: Result<Url, LinkError>)
        requires
            table_wf(table@),
        ensures
            result_view(r) == read_spec(table@, id as int),
    {
        match table.find_id(id) {
            Some(i) => Ok(table.rows[i].copy()),
            None => Err(LinkError::NotFound),
        }
    }

    /// One visit of the row that `url` names, at time `now`: its stored
    /// counter goes up by one in a single step on the table, whatever
    /// counter `url` carries.
    pub fn increase(table: &mut LinkTable, url: &Url, now: i64) -> (r: Result<Url, LinkError>)
        requires
            table_wf(old(table)@),
        ensures
            table_wf(final(table)@),
            (final(table)@, result_view(r)) == visit_spec(old(table)@, url@.id, now as int),
    {
        let i = match table.find_id(url.id) {
            Some(i) => i,
            None => {
                return Err(LinkError::NotFound);
            },
        };
        let row = &table.rows[i];
        if row.num == u32::MAX {
            return Err(LinkError::ConstraintViolation);
        }
        let updated_at = if now < row.created_at {
            row.created_at
        } else {
            now
        };
        let new_row = Url {
            id: row.id,
            src: row.src.clone(),
            num: row.num + 1,
            active: row.active,
            created_at: row.created_at,
            updated_at,
        };
        let out = new_row.copy();
        let ghost t0 = table@;
        table.rows.set(i, new_row);
        proof {
            assert(table@.rows =~= t0.rows.update(i as int, out@));
            lemma_visit_wf(t0, url@.id, now as int);
        }
        Ok(out)
    }

    /// A full update of the row that `url` names, at time `now`; see
    /// `update_spec`.
    pub fn update(table: &mut LinkTable, url: Url, now: i64) -> (r: Result<Url, LinkError>)
        requires
            table_wf(old(table)@),
        ensures
            table_wf(final(table)@),
            (final(table)@, result_view(r)) == update_spec(old(table)@, url@, now as int),
    {
        let i = match table.find_id(url.id) {
            Some(i) => i,
            None => {
                return Err(LinkError::NotFound);
            },
        };
        let row = &table.rows[i];
        if url.num < row.num {
            return Err(LinkError::ConstraintViolation);
        }
        let updated_at = if now < row.created_at {
            row.created_at
        } else {
            now
        };
        let new_row = Url {
            id: row.id,
            src: row.src.clone(),
            num: url.num,
            active: url.active,
            created_at: row.created_at,
            updated_at,
        };
        let out = new_row.copy();
        let ghost t0 = table@;
        table.rows.set(i, new_row);
        proof {
            assert(table@.rows =~= t0.rows.update(i as int, out@));
            lemma_update_wf(t0, url@, now as int);
        }
        Ok(out)
    }

    /// Removes the row with the identifier `id` and returns it.
    pub fn delete(table: &mut LinkTable, id: i64) -> (r: Result<Url, LinkError>)
        requires
            table_wf(old(table)@),
        ensures
            table_wf(final(table)@),
            (final(table)@, result_view(r)) == delete_spec(old(table)@, id as int),
    {
        let i = match table.find_id(id) {
            Some(i) => i,
            None => {
                return Err(LinkError::NotFound);
            },
        };
        let ghost t0 = table@;
        let row = table.rows.remove(i);
        proof {
            assert(table@.rows =~= t0.rows.remove(i as int));
            lemma_delete_wf(t0, id as int);
        }
        Ok(row)
    }

    /// A copy of every row.
    pub fn read_all(table: &LinkTable) -> (r: Vec<Url>)
        ensures
            r@.map_values(|u: Url| u@) == table@.rows,
    {
        let mut out: Vec<Url> = Vec::new();
        let mut i: usize = 0;
        while i < table.rows.len()
            invariant
                i <= table.rows@.len(),
                out@.len() == i,
                forall|j: int| 0 <= j < i ==> (#[trigger] out@[j])@ == table.rows@[j]@,
            decreases table.rows@.len() - i,
        {
            out.push(table.rows[i].copy());
            i = i + 1;
        }
        assert(out@.map_values(|u: Url| u@) =~= table@.rows);
        out
    }
}

} // verus!
