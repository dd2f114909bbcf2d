//! Bulk import of contacts from CSV data: the header names the columns, and
//! each record becomes a contact or is skipped with the reason.

use vstd::prelude::*;
use vstd::string::*;
use crate::book::{BookError, PhoneBook, id_in_use};
use crate::contact::{Contact, fresh_id, normalized_phone};
use crate::text::texts;

verus! {

/// What the CSV reader makes of `data`'s first row: its fields, or `None`
/// where the row cannot be read.
pub uninterp spec fn csv_header_of(data: Seq<u8>) -> Option<Seq<Seq<char>>>;

/// What the CSV reader makes of each row of `data` after the first: its
/// fields, or `None` where the record is malformed.
pub uninterp spec fn csv_records_of(data: Seq<u8>) -> Seq<Option<Seq<Seq<char>>>>;

/// The texts of a record that may be missing.
pub open spec fn record_texts(r: Option<Vec<String>>) -> Option<Seq<Seq<char>>> {
    match r {
        Some(v) => Some(texts(v@)),
        None => None,
    }
}

/// The texts of a sequence of records that may be missing.
pub open spec fn records_texts(v: Seq<Option<Vec<String>>>) -> Seq<Option<Seq<Seq<char>>>> {
    v.map_values(|r: Option<Vec<String>>| record_texts(r))
}

/// Relies on `csv::Reader::headers`, on a reader from
/// `csv::ReaderBuilder::new().from_reader` (which takes the first row as the
/// header): the header's fields, or `None` where it cannot be read.
#[verifier::external_body]
fn csv_header(data: &[u8]) -> (r: Option<Vec<String>>)
    ensures
        record_texts(r) == csv_header_of(data@),
{
    let mut reader = csv::ReaderBuilder::new().from_reader(data);
    reader.headers().ok().map(|h| h.iter().map(|f| f.to_string()).collect())
}

/// Relies on `csv::Reader::records`, on a reader from
/// `csv::ReaderBuilder::new().from_reader`: each record after the header,
/// as its fields, or `None` where the record is malformed.
#[verifier::external_body]
fn csv_records(data: &[u8]) -> (r: Vec<Option<Vec<String>>>)
    ensures
        records_texts(r@) == csv_records_of(data@),
{
    let mut reader = csv::ReaderBuilder::new().from_reader(data);
    reader.records().map(|rec| rec.ok().map(|f| f.iter().map(|x| x.to_string()).collect())).collect()
}

/// `i` is the first column of `header` named `name`.
pub open spec fn first_column(header: Seq<Seq<char>>, name: Seq<char>, i: int) -> bool {
    &&& 0 <= i < header.len()
    &&& header[i] == name
    &&& forall|k: int| 0 <= k < i ==> header[k] != name
}

/// The field of `row` in the first column named `name`; empty where no
/// column has that name or the row is too short to reach it.
pub open spec fn field_value(header: Seq<Seq<char>>, row: Seq<Seq<char>>, name: Seq<char>) -> Seq<char> {
    if exists|i: int| first_column(header, name, i) {
        let i = choose|i: int| first_column(header, name, i);
        if i < row.len() {
            row[i]
        } else {
            Seq::empty()
        }
    } else {
        Seq::empty()
    }
}

/// `c` holds the fields that `row` gives under `header`.
pub open spec fn holds_row(c: Contact, header: Seq<Seq<char>>, row: Seq<Seq<char>>) -> bool {
    c.holds(
        field_value(header, row, "first_name"@),
        field_value(header, row, "last_name"@),
        field_value(header, row, "email"@),
        field_value(header, row, "address"@),
        field_value(header, row, "phone"@),
    )
}

/// What becomes of one record, given the contacts already in the book and
/// the identifier drawn for it.
pub open spec fn record_outcome(
    book: Seq<Contact>,
    header: Seq<Seq<char>>,
    record: Option<Seq<Seq<char>>>,
    id: u128,
) -> Result<(), BookError> {
    match record {
        None => Err(BookError::MalformedRecord),
        Some(row) => if field_value(header, row, "first_name"@).len() == 0 {
            Err(BookError::MissingFirstName)
        } else if field_value(header, row, "phone"@).len() == 0 {
            Err(BookError::MissingPhoneNumber)
        } else if id_in_use(book, id) {
            Err(BookError::DuplicateId)
        } else {
            Ok(())
        },
    }
}

/// The number of successes in `outcomes`.
pub open spec fn ok_count(outcomes: Seq<Result<(), BookError>>) -> nat
    decreases outcomes.len(),
{
    if outcomes.len() == 0 {
        0
    } else {
        ok_count(outcomes.drop_last()) + if outcomes.last() is Ok { 1nat } else { 0nat }
    }
}

/// Importing `records` under `header`, with the identifiers `ids`, turned the
/// contacts `before` into `after` with the given outcome for each record:
/// each accepted record is appended in turn, every other one is skipped.
pub open spec fn import_result(
    before: Seq<Contact>,
    after: Seq<Contact>,
    header: Seq<Seq<char>>,
    records: Seq<Option<Seq<Seq<char>>>>,
    ids: Seq<u128>,
    outcomes: Seq<Result<(), BookError>>,
) -> bool {
    &&& outcomes.len() == records.len()
    &&& after.len() == before.len() + ok_count(outcomes)
    &&& after.subrange(0, before.len() as int) == before
    &&& forall|k: int| 0 <= k < records.len() ==> #[trigger] outcomes[k] == record_outcome(
        after.subrange(0, before.len() + ok_count(outcomes.subrange(0, k)) as int),
        header,
        records[k],
        ids[k],
    )
    &&& forall|k: int| 0 <= k < records.len() && #[trigger] outcomes[k] is Ok ==> {
        let c = after[before.len() + ok_count(outcomes.subrange(0, k)) as int];
        c.id == ids[k] && holds_row(c, header, records[k]->0)
    }
}

/// `import_result` holds for some choice of identifiers, one per record.
pub open spec fn imported(
    before: Seq<Contact>,
    after: Seq<Contact>,
    header: Seq<Seq<char>>,
    records: Seq<Option<Seq<Seq<char>>>>,
    outcomes: Seq<Result<(), BookError>>,
) -> bool {
    exists|ids: Seq<u128>| ids.len() == records.len() && #[trigger] import_result(before, after, header, records, ids, outcomes)
}

/// The field of `row` in the first column of `header` named `name`, or an
/// empty string.
fn field_of(header: &Vec<String>, row: &Vec<String>, name: &str) -> (r: String)
    ensures
        r@ == field_value(texts(header@), texts(row@), name@),
{
    let key = String::from_str(name);
    let ghost h = texts(header@);
    let mut i: usize = 0;
    while i < header.len()
        invariant
            i <= header@.len(),
            h == texts(header@),
            key@ == name@,
            forall|k: int| 0 <= k < i ==> h[k] != name@,
        decreases header@.len() - i,
    {
        if header[i] == key {
            assert(first_column(h, name@, i as int));
            if i < row.len() {
                return row[i].clone();
            } else {
                return String::new();
            }
        }
        i += 1;
    }
    assert(!exists|j: int| first_column(h, name@, j));
    String::new()
}

/// A prefix holds no more successes than the whole.
proof fn lemma_ok_count_prefix(s: Seq<Result<(), BookError>>, k: int)
    requires
        0 <= k <= s.len(),
    ensures
        ok_count(s.subrange(0, k)) <= ok_count(s),
    decreases s.len(),
{
    if k == s.len() {
        assert(s.subrange(0, k) =~= s);
    } else {
        lemma_ok_count_prefix(s.drop_last(), k);
        assert(s.drop_last().subrange(0, k) =~= s.subrange(0, k));
    }
}

/// One more record imported keeps `import_result` for the longer prefix.
proof fn lemma_import_step(
    start: Seq<Contact>,
    before: Seq<Contact>,
    after: Seq<Contact>,
    h: Seq<Seq<char>>,
    recs: Seq<Option<Seq<Seq<char>>>>,
    ids: Seq<u128>,
    outs: Seq<Result<(), BookError>>,
    o: Result<(), BookError>,
    i: int,
)
    requires
        0 <= i < recs.len(),
        ids.len() == recs.len(),
        import_result(start, before, h, recs.subrange(0, i), ids, outs),
        o == record_outcome(before, h, recs[i], ids[i]),
        o is Ok ==> after.len() == before.len() + 1 && after.drop_last() == before
            && after.last().id == ids[i] && holds_row(after.last(), h, recs[i]->0),
        o is Err ==> after == before,
    ensures
        import_result(start, after, h, recs.subrange(0, i + 1), ids, outs.push(o)),
{
    let n0 = start.len();
    let outs2 = outs.push(o);
    assert(outs2.drop_last() =~= outs);
    assert(outs2.subrange(0, i) =~= outs);
    assert(after.subrange(0, before.len() as int) =~= before);
    assert(after.subrange(0, n0 as int) =~= start);
    lemma_ok_count_prefix(outs, i);
    assert forall|k: int| 0 <= k < i implies #[trigger] outs2.subrange(0, k) == outs.subrange(0, k) by {
        assert(outs2.subrange(0, k) =~= outs.subrange(0, k));
    }
    assert forall|k: int| 0 <= k < i implies n0 + ok_count(#[trigger] outs.subrange(0, k)) + (if outs[k] is Ok { 1int } else { 0int }) <= before.len() by {
        lemma_ok_count_prefix(outs, k + 1);
        assert(outs.subrange(0, k + 1).drop_last() =~= outs.subrange(0, k));
    }
    assert forall|m: int| 0 <= m <= before.len() implies #[trigger] after.subrange(0, m) == before.subrange(0, m) by {
        assert(after.subrange(0, m) =~= before.subrange(0, m));
    }
    let rs = recs.subrange(0, i + 1);
    assert(recs.subrange(0, i) =~= rs.drop_last());
    assert forall|k: int| 0 <= k < rs.len() implies #[trigger] outs2[k] == record_outcome(
        after.subrange(0, n0 + ok_count(outs2.subrange(0, k)) as int),
        h,
        rs[k],
        ids[k],
    ) by {
        if k < i {
            assert(outs2[k] == outs[k]);
            assert(recs.subrange(0, i)[k] == rs[k]);
        }
    }
    assert forall|k: int| 0 <= k < rs.len() && #[trigger] outs2[k] is Ok implies ({
        let c = after[n0 + ok_count(outs2.subrange(0, k)) as int];
        c.id == ids[k] && holds_row(c, h, rs[k]->0)
    }) by {
        if k < i {
            assert(outs2[k] == outs[k]);
            assert(recs.subrange(0, i)[k] == rs[k]);
            let idx = n0 + ok_count(outs.subrange(0, k)) as int;
            assert(after[idx] == after.subrange(0, before.len() as int)[idx]);
        }
    }
}

impl PhoneBook {
    /// Turns one record into a contact with the identifier `id` and appends
    /// it; a malformed record, or one refused by `add_contact`, is skipped.
    pub fn import_record(&mut self, header: &Vec<String>, record: &Option<Vec<String>>, id: u128) -> (r: Result<(), BookError>)
        requires
            old(self).wf(),
        ensures
            final(self).wf(),
            r == record_outcome(old(self)@, texts(header@), record_texts(*record), id),
            r is Ok ==> final(self)@.len() == old(self)@.len() + 1
                && final(self)@.drop_last() == old(self)@
                && final(self)@.last().id == id
                && holds_row(final(self)@.last(), texts(header@), texts(record->0@)),
            r is Err ==> final(self)@ == old(self)@,
    {
        match record {
            None => Err(BookError::MalformedRecord),
            Some(row) => {
                let first_name = field_of(header, row, "first_name");
                let last_name = field_of(header, row, "last_name");
                let email = field_of(header, row, "email");
                let address = field_of(header, row, "address");
                let phone_number = field_of(header, row, "phone");
                let ghost raw_phone = phone_number@;
                let contact = Contact::with_id(id, first_name, last_name, email, address, phone_number);
                assert(raw_phone.len() == 0 <==> normalized_phone(raw_phone).len() == 0);
                let r = self.add_contact(contact);
                proof {
                    if r is Ok {
                        assert(self@.drop_last() =~= old(self)@);
                    }
                }
                r
            },
        }
    }

    /// Imports `records` in order under `header`, the record at position
    /// `k` with the identifier `ids[k]`; the outcome of each record is
    /// handed back.
    pub fn import_records(
        &mut self,
        header: &Vec<String>,
        records: &Vec<Option<Vec<String>>>,
        ids: &Vec<u128>,
    ) -> (r: Vec<Result<(), BookError>>)
        requires
            old(self).wf(),
            ids@.len() == records@.len(),
        ensures
            final(self).wf(),
            import_result(old(self)@, final(self)@, texts(header@), records_texts(records@), ids@, r@),
    {
        let ghost h = texts(header@);
        let ghost recs = records_texts(records@);
        let ghost start = self@;
        let ghost n0 = self@.len();
        let mut outcomes: Vec<Result<(), BookError>> = Vec::new();
        let mut i: usize = 0;
        assert(self@.subrange(0, n0 as int) =~= start);
        while i < records.len()
            invariant
                self.wf(),
                start == old(self)@,
                n0 == start.len(),
                h == texts(header@),
                recs == records_texts(records@),
                i <= records@.len(),
                ids@.len() == records@.len(),
                import_result(start, self@, h, recs.subrange(0, i as int), ids@, outcomes@),
            decreases records@.len() - i,
        {
            let ghost before = self@;
            let ghost outs = outcomes@;
            let o = self.import_record(header, &records[i], ids[i]);
            outcomes.push(o);
            proof {
                lemma_import_step(start, before, self@, h, recs, ids@, outs, o, i as int);
            }
            i += 1;
        }
        assert(recs.subrange(0, i as int) =~= recs);
        outcomes
    }

    /// Imports the contacts of CSV `data`: the first row names the columns
    /// (`first_name`, `last_name`, `email`, `address`, `phone`; others are
    /// ignored), and each later record is imported with a freshly drawn
    /// identifier, or skipped with the reason. Unreadable header: nothing
    /// changes.
    pub fn load_contacts_from_csv(&mut self, data: &[u8]) -> (r: Result<Vec<Result<(), BookError>>, BookError>)
        requires
            old(self).wf(),
        ensures
            final(self).wf(),
            csv_header_of(data@) is None ==> r == Err::<Vec<Result<(), BookError>>, BookError>(BookError::UnreadableHeader),
            r is Err ==> final(self)@ == old(self)@,
            csv_header_of(data@) is Some ==> r is Ok,
            r is Ok ==> imported(old(self)@, final(self)@, csv_header_of(data@)->0, csv_records_of(data@), r->Ok_0@),
    {
        let header = match csv_header(data) {
            Some(h) => h,
            None => {
                return Err(BookError::UnreadableHeader);
            },
        };
        let records = csv_records(data);
        let mut ids: Vec<u128> = Vec::new();
        let mut i: usize = 0;
        while i < records.len()
            invariant
                i <= records@.len(),
                ids@.len() == i,
            decreases records@.len() - i,
        {
            ids.push(fresh_id());
            i += 1;
        }
        let outcomes = self.import_records(&header, &records, &ids);
        assert(csv_header_of(data@) == Some(texts(header@)));
        assert(import_result(old(self)@, self@, csv_header_of(data@)->0, csv_records_of(data@), ids@, outcomes@));
        assert(imported(old(self)@, self@, csv_header_of(data@)->0, csv_records_of(data@), outcomes@));
        Ok(outcomes)
    }
}

} // verus!
