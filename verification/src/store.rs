//! What the authoritative store holds, and which of its rows answers a
//! question.
//!
//! The store keeps rows of a name, a type, a value and a TTL, and nothing
//! keeps it from holding several rows for one name and type. Of the rows that
//! answer a question, the one with the lowest id is the answer; of two with
//! the same id, the one that comes first in the reply.

use crate::record::RecordType;
use crate::text::same_text;
use vstd::prelude::*;

verus! {

/// One row of the authoritative store.
#[derive(Clone, Debug, PartialEq, Eq)]
pub struct StoredRecord {
    pub id: i64,
    pub domain: String,
    pub record_type: RecordType,
    pub value: String,
    pub ttl: Option<u32>,
}

/// The mathematical value of a `StoredRecord`.
pub struct StoredRecordView {
    pub id: i64,
    pub domain: Seq<char>,
    pub record_type: RecordType,
    pub value: Seq<char>,
    pub ttl: Option<u32>,
}

impl View for StoredRecord {
    type V = StoredRecordView;

    open spec fn view(&self) -> StoredRecordView {
        StoredRecordView {
            id: self.id,
            domain: self.domain@,
            record_type: self.record_type,
            value: self.value@,
            ttl: self.ttl,
        }
    }
}

/// What the authoritative store said when it was asked.
#[derive(Clone, Debug, PartialEq, Eq)]
pub enum StoreReply {
    /// It holds these rows, which may be none.
    Rows(Vec<StoredRecord>),
    /// It could not be asked.
    Failed,
}

/// The values of a sequence of rows, one for one.
pub open spec fn rows_view(rows: Seq<StoredRecord>) -> Seq<StoredRecordView> {
    rows.map_values(|row: StoredRecord| row@)
}

impl StoredRecordView {
    /// Whether the row is one for the name and the type: the same name,
    /// character for character, and the same type.
    pub open spec fn answers(self, domain: Seq<char>, record_type: RecordType) -> bool {
        self.domain == domain && self.record_type == record_type
    }
}

/// The place of the row that answers for the name and the type, if a row
/// does: the rows are gone through in their order, and a row takes the place
/// of the one chosen so far only if its id is lower.
pub open spec fn chosen(rows: Seq<StoredRecordView>, domain: Seq<char>, record_type: RecordType) -> Option<
    int,
>
    decreases rows.len(),
{
    if rows.len() == 0 {
        None
    } else {
        let last = rows.len() - 1;
        let before = chosen(rows.drop_last(), domain, record_type);
        if !rows[last].answers(domain, record_type) {
            before
        } else {
            match before {
                Some(best) if rows[best].id <= rows[last].id => before,
                _ => Some(last),
            }
        }
    }
}

/// The place of the row that answers for the name and the type, if a row
/// does.
pub fn choose_row(rows: &Vec<StoredRecord>, domain: &str, record_type: RecordType) -> (place: Option<
    usize,
>)
    ensures
        match place {
            Some(i) => i < rows.len() && chosen(rows_view(rows@), domain@, record_type) == Some(
                i as int,
            ),
            None => chosen(rows_view(rows@), domain@, record_type) is None,
        },
{
    let ghost all = rows_view(rows@);
    let mut best: Option<usize> = None;
    let mut i: usize = 0;
    while i < rows.len()
        invariant
            i <= rows.len(),
            all == rows_view(rows@),
            match best {
                Some(b) => b < i && chosen(all.take(i as int), domain@, record_type) == Some(
                    b as int,
                ),
                None => chosen(all.take(i as int), domain@, record_type) is None,
            },
        decreases rows.len() - i,
    {
        proof {
            assert(all.take(i + 1).drop_last() =~= all.take(i as int));
            assert(all.take(i + 1)[i as int] == rows@[i as int]@);
        }
        let row = &rows[i];
        if row.record_type == record_type && same_text(row.domain.as_str(), domain) {
            best = match best {
                Some(b) if rows[b].id <= row.id => {
                    assert(all.take(i + 1)[b as int] == rows@[b as int]@);
                    Some(b)
                },
                _ => Some(i),
            };
        }
        i = i + 1;
    }
    assert(all.take(rows.len() as int) =~= all);
    best
}

/// The chosen row answers for the name and the type, no row that does has a
/// lower id, and none with the same id comes before it. No row is chosen
/// only where no row answers.
pub proof fn lemma_chosen_is_least(
    rows: Seq<StoredRecordView>,
    domain: Seq<char>,
    record_type: RecordType,
)
    ensures
        match chosen(rows, domain, record_type) {
            Some(best) => {
                &&& 0 <= best < rows.len()
                &&& rows[best].answers(domain, record_type)
                &&& forall|j: int|
                    0 <= j < rows.len() && (#[trigger] rows[j]).answers(domain, record_type)
                        ==> rows[best].id < rows[j].id || (rows[best].id == rows[j].id && best
                        <= j)
            },
            None => forall|j: int|
                0 <= j < rows.len() ==> !(#[trigger] rows[j]).answers(domain, record_type),
        },
    decreases rows.len(),
{
    if rows.len() > 0 {
        let earlier = rows.drop_last();
        lemma_chosen_is_least(earlier, domain, record_type);
        assert forall|j: int| 0 <= j < earlier.len() implies #[trigger] earlier[j] == rows[j] by {}
        match chosen(rows, domain, record_type) {
            Some(best) => {
                assert forall|j: int|
                    0 <= j < rows.len() && (#[trigger] rows[j]).answers(
                        domain,
                        record_type,
                    ) implies rows[best].id < rows[j].id || (rows[best].id == rows[j].id && best
                    <= j) by {
                    if j < earlier.len() {
                        assert(earlier[j].answers(domain, record_type));
                    }
                }
            },
            None => {
                assert forall|j: int| 0 <= j < rows.len() implies !(#[trigger] rows[j]).answers(
                    domain,
                    record_type,
                ) by {
                    if j < earlier.len() {
                        assert(!earlier[j].answers(domain, record_type));
                    }
                }
            },
        }
    }
}

} // verus!
