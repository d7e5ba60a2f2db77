//! The reminders table: every reminder ever added, each with an id, text,
//! optional due date (as `YYYY-MM-DD` text), creation time and dismissal
//! time. Dismissal is soft: a dismissed reminder keeps its row and only
//! leaves the active list. Time is handed in by the caller.
//!
//! The caller persists the table (the application keeps it in sqlite);
//! which rows exist, which ids new rows get, what is active and in which
//! order is decided here.

use vstd::prelude::*;

use crate::cli::date_of;
use crate::date::{format_date, parse_date, valid_ymd, ymd_text, Date};
use crate::models::Reminder;

verus! {

/// One stored row.
pub struct ReminderRow {
    pub id: i64,
    pub text: String,
    pub due: Option<String>,
    pub created_at: i64,
    pub dismissed_at: Option<i64>,
}

/// A row as plain values.
pub struct RowView {
    pub id: i64,
    pub text: Seq<char>,
    pub due: Option<Seq<char>>,
    pub created_at: i64,
    pub dismissed_at: Option<i64>,
}

/// A row as plain values.
pub open spec fn row_view(r: ReminderRow) -> RowView {
    RowView {
        id: r.id,
        text: r.text@,
        due: match r.due {
            Some(d) => Some(d@),
            None => None,
        },
        created_at: r.created_at,
        dismissed_at: r.dismissed_at,
    }
}

/// Rows as plain values.
pub open spec fn rows_view(rows: Seq<ReminderRow>) -> Seq<RowView> {
    rows.map_values(|r: ReminderRow| row_view(r))
}

/// Rows are kept in strictly increasing id order, so ids are unique.
pub open spec fn ids_increasing(rows: Seq<RowView>) -> bool {
    forall|i: int, j: int| 0 <= i < j < rows.len() ==> (#[trigger] rows[i]).id < (#[trigger] rows[j]).id
}

/// The id the next added reminder gets: one more than the largest, 1 for an
/// empty table.
pub open spec fn next_id(rows: Seq<RowView>) -> int {
    if rows.len() == 0 {
        1
    } else {
        rows.last().id + 1
    }
}

/// The rows after dismissing `id` at `now`: that row gets `now` as its
/// dismissal time; nothing else changes.
pub open spec fn dismiss_spec(rows: Seq<RowView>, id: i64, now: i64) -> Seq<RowView> {
    rows.map_values(
        |r: RowView|
            if r.id == id {
                RowView { dismissed_at: Some(now), ..r }
            } else {
                r
            },
    )
}

/// Active rows are those never dismissed.
pub open spec fn is_active(r: RowView) -> bool {
    r.dismissed_at is None
}

/// The due date a row shows: its due text read back as a date (none when
/// it has no due text or the text does not read as a date).
pub open spec fn due_date(r: RowView) -> Option<Date> {
    match r.due {
        Some(t) => date_of(t),
        None => None,
    }
}

/// The order of the active list: rows showing a due date first, earlier
/// due dates first, then creation time, then id.
pub open spec fn row_before(a: RowView, b: RowView) -> bool {
    ||| due_date(a) is Some && due_date(b) is None
    ||| due_date(a) is Some && due_date(b) is Some && due_date(a)->0.before(due_date(b)->0)
    ||| due_date(a) == due_date(b) && a.created_at < b.created_at
    ||| due_date(a) == due_date(b) && a.created_at == b.created_at && a.id < b.id
}

/// A reminder as plain values: id, text, due date, creation time.
pub open spec fn reminder_view(r: Reminder) -> (i64, Seq<char>, Option<Date>, i64) {
    (r.id, r.text@, r.due, r.created_at)
}

/// The reminder a row shows as: its due text read back as a date (`None`
/// when there is none or it does not read as one).
pub open spec fn reminder_of(r: RowView) -> (i64, Seq<char>, Option<Date>, i64) {
    (
        r.id,
        r.text,
        match r.due {
            Some(t) => date_of(t),
            None => None,
        },
        r.created_at,
    )
}

/// The row `add` appends: active, with its due date written as
/// `YYYY-MM-DD` text.
pub open spec fn added_row(id: i64, text: Seq<char>, due: Option<Date>, now: i64) -> RowView {
    RowView {
        id,
        text,
        due: match due {
            Some(d) => Some(ymd_text(d.year, d.month, d.day)),
            None => None,
        },
        created_at: now,
        dismissed_at: None,
    }
}

/// A listed reminder shows the due date its row's text was written from.
pub open spec fn due_read_back(row: RowView, item: (i64, Seq<char>, Option<Date>, i64)) -> bool {
    forall|y: i32, m: u32, d: u32|
        row.due == Some(#[trigger] ymd_text(y, m, d)) && valid_ymd(y as int, m as int, d as int)
            ==> item.2 == Some(Date { year: y, month: m, day: d })
}

/// Every listed reminder shows the due date its row was written from.
pub open spec fn dates_read_back(
    rows: Seq<RowView>,
    listing: Seq<(i64, Seq<char>, Option<Date>, i64)>,
) -> bool {
    forall|k: int, j: int|
        #![trigger rows[j], listing[k]]
        0 <= k < listing.len() && 0 <= j < rows.len() && rows[j].id == listing[k].0 ==> due_read_back(
            rows[j],
            listing[k],
        )
}

/// `listing` is the active list of `rows`: each active row's reminder
/// exactly once, in [`row_before`] order.
pub open spec fn is_active_listing(
    rows: Seq<RowView>,
    listing: Seq<(i64, Seq<char>, Option<Date>, i64)>,
) -> bool {
    &&& forall|k: int| 0 <= k < listing.len() ==> #[trigger] listed_row(rows, listing[k])
    &&& forall|j: int|
        0 <= j < rows.len() && is_active(#[trigger] rows[j]) ==> exists|k: int|
            0 <= k < listing.len() && #[trigger] listing[k].0 == rows[j].id
    &&& forall|k: int, l: int, a: int, b: int|
        0 <= k < l < listing.len() && 0 <= a < rows.len() && 0 <= b < rows.len() && rows[a].id
            == (#[trigger] listing[k]).0 && rows[b].id == (#[trigger] listing[l]).0 ==> row_before(
            #[trigger] rows[a],
            #[trigger] rows[b],
        )
}

/// Why the table refused an operation.
#[derive(Debug)]
pub enum StoreError {
    /// The largest id is `i64::MAX`; no id is left for a new row.
    IdsExhausted,
    /// Rows handed in were not in strictly increasing id order.
    RowsOutOfOrder,
}

/// The reminders table.
pub struct ReminderStore {
    rows: Vec<ReminderRow>,
}

impl View for ReminderStore {
    type V = Seq<RowView>;

    closed spec fn view(&self) -> Seq<RowView> {
        rows_view(self.rows@)
    }
}

} // verus!

verus! {

/// `row_before` is a strict total order on rows with different ids.
pub proof fn lemma_row_order(a: RowView, b: RowView, c: RowView)
    ensures
        !row_before(a, a),
        row_before(a, b) ==> !row_before(b, a),
        a.id != b.id ==> row_before(a, b) || row_before(b, a),
        row_before(a, b) && row_before(b, c) ==> row_before(a, c),
{
}

impl ReminderStore {
    #[verifier::type_invariant]
    spec fn ordered(self) -> bool {
        ids_increasing(rows_view(self.rows@))
    }

    /// An empty table.
    pub fn in_memory() -> (s: ReminderStore)
        ensures
            s@ == Seq::<RowView>::empty(),
    {
        let s = ReminderStore { rows: Vec::new() };
        assert(rows_view(s.rows@) =~= Seq::<RowView>::empty());
        s
    }

    /// The table holding `rows`, which must come in strictly increasing id
    /// order (as read back with `ORDER BY id`).
    pub fn from_rows(rows: Vec<ReminderRow>) -> (r: Result<ReminderStore, StoreError>)
        ensures
            r matches Ok(s) ==> s@ == rows_view(rows@),
            r is Ok <==> ids_increasing(rows_view(rows@)),
            r matches Err(e) ==> e is RowsOutOfOrder,
    {
        let mut i: usize = 1;
        while i < rows.len()
            invariant
                1 <= i,
                forall|a: int, b: int| 0 <= a < b < i && b < rows@.len() ==> (#[trigger] rows@[a]).id < (#[trigger] rows@[b]).id,
            decreases rows@.len() - i,
        {
            if rows[i - 1].id >= rows[i].id {
                proof {
                    let v = rows_view(rows@);
                    assert(v[i - 1].id >= v[i as int].id);
                }
                return Err(StoreError::RowsOutOfOrder);
            }
            proof {
                assert forall|a: int, b: int| 0 <= a < b < i + 1 && b < rows@.len() implies (#[trigger] rows@[a]).id < (#[trigger] rows@[b]).id by {
                    if b == i && a < i - 1 {
                        assert(rows@[a].id < rows@[i - 1].id);
                    }
                }
            }
            i = i + 1;
        }
        proof {
            let v = rows_view(rows@);
            assert forall|a: int, b: int| 0 <= a < b < v.len() implies (#[trigger] v[a]).id < (#[trigger] v[b]).id by {
                assert(rows@[a].id < rows@[b].id);
            }
        }
        Ok(ReminderStore { rows })
    }

    /// The stored rows, in id order.
    pub fn rows(&self) -> (r: &Vec<ReminderRow>)
        ensures
            rows_view(r@) == self@,
            ids_increasing(self@),
    {
        proof {
            use_type_invariant(self);
        }
        &self.rows
    }

    /// Inserts an active reminder created at `now`, returning its new id:
    /// one more than the largest id so far (1 in an empty table). The due
    /// date is stored as its `YYYY-MM-DD` text.
    pub fn add(&mut self, text: &str, due: Option<Date>, now: i64) -> (r: Result<i64, StoreError>)
        requires
            due matches Some(d) ==> d.valid(),
        ensures
            ids_increasing(final(self)@),
            r matches Ok(id) ==> id == next_id(old(self)@) && final(self)@ == old(self)@.push(
                added_row(id, text@, due, now),
            ),
            r is Err ==> final(self)@ == old(self)@ && old(self)@.len() > 0 && old(self)@.last().id
                == i64::MAX,
            r matches Err(e) ==> e is IdsExhausted,
    {
        proof {
            use_type_invariant(&*self);
        }
        let n = self.rows.len();
        let id: i64 = if n == 0 {
            1
        } else {
            let last = self.rows[n - 1].id;
            if last == i64::MAX {
                return Err(StoreError::IdsExhausted);
            }
            last + 1
        };
        let due_text = match due {
            Some(d) => Some(format_date(d)),
            None => None,
        };
        let row = ReminderRow {
            id,
            text: String::from_str(text),
            due: due_text,
            created_at: now,
            dismissed_at: None,
        };
        let ghost old_view = self@;
        let mut rows: Vec<ReminderRow> = Vec::new();
        std::mem::swap(&mut rows, &mut self.rows);
        rows.push(row);
        proof {
            let v = rows_view(rows@);
            assert(v =~= old_view.push(v.last()));
            assert forall|a: int, b: int| 0 <= a < b < v.len() implies (#[trigger] v[a]).id < (#[trigger] v[b]).id by {
                if b == v.len() - 1 && a < b {
                    if n > 0 {
                        assert(v[a].id <= old_view.last().id);
                    }
                }
            }
        }
        self.rows = rows;
        Ok(id)
    }

    /// Marks reminder `id` dismissed at `now`; it leaves the active list but
    /// its row stays.
    pub fn dismiss(&mut self, id: i64, now: i64)
        ensures
            final(self)@ == dismiss_spec(old(self)@, id, now),
            ids_increasing(final(self)@),
    {
        proof {
            use_type_invariant(&*self);
        }
        let ghost old_view = self@;
        let mut rows: Vec<ReminderRow> = Vec::new();
        std::mem::swap(&mut rows, &mut self.rows);
        let mut i: usize = 0;
        while i < rows.len()
            invariant
                i <= rows@.len(),
                rows@.len() == old_view.len(),
                forall|k: int| 0 <= k < i ==> row_view(#[trigger] rows@[k]) == (if old_view[k].id == id {
                    RowView { dismissed_at: Some(now), ..old_view[k] }
                } else {
                    old_view[k]
                }),
                forall|k: int| i <= k < rows@.len() ==> row_view(#[trigger] rows@[k]) == old_view[k],
            decreases rows@.len() - i,
        {
            if rows[i].id == id {
                let mut row = rows.remove(i);
                row.dismissed_at = Some(now);
                rows.insert(i, row);
            }
            i = i + 1;
        }
        proof {
            let v = rows_view(rows@);
            assert(v =~= dismiss_spec(old_view, id, now));
            assert forall|a: int, b: int| 0 <= a < b < v.len() implies (#[trigger] v[a]).id < (#[trigger] v[b]).id by {
                assert(v[a].id == old_view[a].id && v[b].id == old_view[b].id);
            }
        }
        self.rows = rows;
    }
}

} // verus!

verus! {

/// The due date a row shows.
fn due_date_of(r: &ReminderRow) -> (d: Option<Date>)
    ensures
        d == due_date(row_view(*r)),
{
    match &r.due {
        Some(t) => parse_date(t.as_str()),
        None => None,
    }
}

/// Whether two optional dates are the same.
fn same_due(a: Option<Date>, b: Option<Date>) -> (r: bool)
    ensures
        r == (a == b),
{
    match (a, b) {
        (Some(x), Some(y)) => x.year == y.year && x.month == y.month && x.day == y.day,
        (None, None) => true,
        _ => false,
    }
}

/// Whether row `a` comes before row `b` in the active list.
fn shown_before(a: &ReminderRow, b: &ReminderRow) -> (r: bool)
    ensures
        r == row_before(row_view(*a), row_view(*b)),
{
    let da = due_date_of(a);
    let db = due_date_of(b);
    match (da, db) {
        (Some(_), None) => return true,
        (Some(x), Some(y)) => {
            if x.is_before(&y) {
                return true;
            }
        },
        _ => {},
    }
    if !same_due(da, db) {
        return false;
    }
    a.created_at < b.created_at || (a.created_at == b.created_at && a.id < b.id)
}

/// The reminder a row shows as.
fn to_reminder(r: &ReminderRow) -> (m: Reminder)
    ensures
        reminder_view(m) == reminder_of(row_view(*r)),
        due_read_back(row_view(*r), reminder_view(m)),
{
    let due = match &r.due {
        Some(t) => parse_date(t.as_str()),
        None => None,
    };
    Reminder { id: r.id, text: r.text.clone(), due, created_at: r.created_at }
}

/// `order` lists the active rows of `v`, each once, in `row_before` order.
pub open spec fn is_active_order(v: Seq<RowView>, order: Seq<usize>) -> bool {
    &&& forall|k: int| 0 <= k < order.len() ==> #[trigger] order[k] < v.len() && is_active(v[order[k] as int])
    &&& forall|j: int| 0 <= j < v.len() && is_active(v[j]) ==> #[trigger] order.contains(j as usize)
    &&& forall|k: int, l: int|
        0 <= k < l < order.len() ==> row_before(v[#[trigger] order[k] as int], v[#[trigger] order[l] as int])
}

/// The indices of the active rows in list order.
fn active_order(rows: &Vec<ReminderRow>) -> (order: Vec<usize>)
    requires
        ids_increasing(rows_view(rows@)),
    ensures
        is_active_order(rows_view(rows@), order@),
{
    let ghost v = rows_view(rows@);
    let mut order: Vec<usize> = Vec::new();
    let mut i: usize = 0;
    while i < rows.len()
        invariant
            i <= rows@.len(),
            v == rows_view(rows@),
            ids_increasing(v),
            forall|k: int| 0 <= k < order@.len() ==> #[trigger] order@[k] < i && is_active(v[order@[k] as int]),
            forall|j: int| 0 <= j < i && is_active(v[j]) ==> #[trigger] order@.contains(j as usize),
            forall|k: int, l: int|
                0 <= k < l < order@.len() ==> row_before(v[#[trigger] order@[k] as int], v[#[trigger] order@[l] as int]),
        decreases rows@.len() - i,
    {
        if rows[i].dismissed_at.is_none() {
            assert(is_active(v[i as int]));
            let mut pos: usize = 0;
            while pos < order.len() && shown_before(&rows[order[pos]], &rows[i])
                invariant
                    i < rows@.len(),
                    v == rows_view(rows@),
                    pos <= order@.len(),
                    forall|k: int| 0 <= k < order@.len() ==> #[trigger] order@[k] < i && is_active(v[order@[k] as int]),
                    forall|k: int| 0 <= k < pos ==> row_before(v[#[trigger] order@[k] as int], v[i as int]),
                decreases order@.len() - pos,
            {
                pos = pos + 1;
            }
            let ghost old_order = order@;
            proof {
                if pos < old_order.len() {
                    let p0 = old_order[pos as int] as int;
                    assert(v[p0].id < v[i as int].id);
                    lemma_row_order(v[p0], v[i as int], v[i as int]);
                    assert forall|k: int| pos <= k < old_order.len() implies row_before(
                        v[i as int],
                        v[#[trigger] old_order[k] as int],
                    ) by {
                        if k > pos {
                            lemma_row_order(v[i as int], v[p0], v[old_order[k] as int]);
                        }
                    }
                }
            }
            order.insert(pos, i);
            proof {
                assert forall|k: int, l: int|
                    0 <= k < l < order@.len() implies row_before(v[#[trigger] order@[k] as int], v[#[trigger] order@[l] as int]) by {
                    if l < pos {
                        assert(order@[k] == old_order[k] && order@[l] == old_order[l]);
                    } else if l == pos {
                        assert(order@[k] == old_order[k]);
                    } else if k == pos {
                        assert(order@[l] == old_order[l - 1]);
                    } else if k < pos {
                        assert(order@[k] == old_order[k] && order@[l] == old_order[l - 1]);
                    } else {
                        assert(order@[k] == old_order[k - 1] && order@[l] == old_order[l - 1]);
                    }
                }
                assert forall|j: int| 0 <= j < i + 1 && is_active(v[j]) implies #[trigger] order@.contains(j as usize) by {
                    if j == i {
                        assert(order@[pos as int] == i);
                    } else {
                        assert(old_order.contains(j as usize));
                        let k = choose|k: int| 0 <= k < old_order.len() && old_order[k] == j as usize;
                        if k < pos {
                            assert(order@[k] == j as usize);
                        } else {
                            assert(order@[k + 1] == j as usize);
                        }
                    }
                }
                assert forall|k: int| 0 <= k < order@.len() implies #[trigger] order@[k] < i + 1 && is_active(v[order@[k] as int]) by {
                    if k < pos {
                        assert(order@[k] == old_order[k]);
                    } else if k > pos {
                        assert(order@[k] == old_order[k - 1]);
                    }
                }
            }
        }
        i = i + 1;
    }
    order
}

proof fn lemma_order_gives_listing(
    v: Seq<RowView>,
    order: Seq<usize>,
    listing: Seq<(i64, Seq<char>, Option<Date>, i64)>,
)
    requires
        v.len() <= usize::MAX,
        ids_increasing(v),
        is_active_order(v, order),
        listing.len() == order.len(),
        forall|a: int| 0 <= a < order.len() ==> #[trigger] listing[a] == reminder_of(v[order[a] as int]),
    ensures
        is_active_listing(v, listing),
{
    lemma_listing_sound(v, order, listing);
    lemma_listing_complete(v, order, listing);
    lemma_listing_sorted(v, order, listing);
}

proof fn lemma_listing_sound(
    v: Seq<RowView>,
    order: Seq<usize>,
    listing: Seq<(i64, Seq<char>, Option<Date>, i64)>,
)
    requires
        v.len() <= usize::MAX,
        is_active_order(v, order),
        listing.len() == order.len(),
        forall|a: int| 0 <= a < order.len() ==> #[trigger] listing[a] == reminder_of(v[order[a] as int]),
    ensures
        forall|k: int| 0 <= k < listing.len() ==> #[trigger] listed_row(v, listing[k]),
{
    assert forall|a: int| 0 <= a < listing.len() implies #[trigger] listed_row(v, listing[a]) by {
        let j = order[a] as int;
        assert(order[a] < v.len() && is_active(v[order[a] as int]));
        assert(listing[a] == reminder_of(v[j]));
        assert(0 <= j < v.len() && is_active(v[j]) && listing[a] == reminder_of(v[j]));
    }
}

/// `r` is the reminder of some active row of `v`.
pub open spec fn listed_row(v: Seq<RowView>, r: (i64, Seq<char>, Option<Date>, i64)) -> bool {
    exists|j: int| 0 <= j < v.len() && is_active(v[j]) && r == reminder_of(#[trigger] v[j])
}

proof fn lemma_listing_complete(
    v: Seq<RowView>,
    order: Seq<usize>,
    listing: Seq<(i64, Seq<char>, Option<Date>, i64)>,
)
    requires
        v.len() <= usize::MAX,
        is_active_order(v, order),
        listing.len() == order.len(),
        forall|a: int| 0 <= a < order.len() ==> #[trigger] listing[a] == reminder_of(v[order[a] as int]),
    ensures
        forall|j: int|
            0 <= j < v.len() && is_active(#[trigger] v[j]) ==> exists|k: int|
                0 <= k < listing.len() && #[trigger] listing[k].0 == v[j].id,
{
    assert forall|j: int| 0 <= j < v.len() && is_active(#[trigger] v[j]) implies exists|a: int|
        0 <= a < listing.len() && #[trigger] listing[a].0 == v[j].id by {
        assert(order.contains(j as usize));
        let a = choose|a: int| 0 <= a < order.len() && order[a] == j as usize;
        assert(order[a] as int == j);
        assert(listing[a] == reminder_of(v[order[a] as int]));
        assert(listing[a].0 == v[j].id);
    }
}

proof fn lemma_listing_sorted(
    v: Seq<RowView>,
    order: Seq<usize>,
    listing: Seq<(i64, Seq<char>, Option<Date>, i64)>,
)
    requires
        v.len() <= usize::MAX,
        ids_increasing(v),
        is_active_order(v, order),
        listing.len() == order.len(),
        forall|a: int| 0 <= a < order.len() ==> #[trigger] listing[a] == reminder_of(v[order[a] as int]),
    ensures
        forall|k: int, l: int, a: int, b: int|
            0 <= k < l < listing.len() && 0 <= a < v.len() && 0 <= b < v.len() && v[a].id
                == (#[trigger] listing[k]).0 && v[b].id == (#[trigger] listing[l]).0 ==> row_before(
                #[trigger] v[a],
                #[trigger] v[b],
            ),
{
    assert forall|k1: int, l1: int, a: int, b: int|
        0 <= k1 < l1 < listing.len() && 0 <= a < v.len() && 0 <= b < v.len() && v[a].id
            == (#[trigger] listing[k1]).0 && v[b].id == (#[trigger] listing[l1]).0 implies row_before(
        #[trigger] v[a],
        #[trigger] v[b],
    ) by {
        let pa = order[k1] as int;
        let pb = order[l1] as int;
        assert(order[k1] < v.len() && order[l1] < v.len());
        assert(listing[k1] == reminder_of(v[pa]));
        assert(listing[l1] == reminder_of(v[pb]));
        if a < pa {
            assert(v[a].id < v[pa].id);
        } else if a > pa {
            assert(v[pa].id < v[a].id);
        }
        if b < pb {
            assert(v[b].id < v[pb].id);
        } else if b > pb {
            assert(v[pb].id < v[b].id);
        }
        assert(row_before(v[order[k1] as int], v[order[l1] as int]));
    }
}

impl ReminderStore {
    /// The active (never dismissed) reminders: dated ones first, earliest
    /// due first, then oldest first.
    pub fn active(&self) -> (res: Vec<Reminder>)
        ensures
            is_active_listing(self@, res@.map_values(|m: Reminder| reminder_view(m))),
            dates_read_back(self@, res@.map_values(|m: Reminder| reminder_view(m))),
    {
        proof {
            use_type_invariant(self);
        }
        let rows = &self.rows;
        let ghost v = rows_view(rows@);
        let n = rows.len();
        assert(v.len() == n);
        let order = active_order(rows);
        let mut res: Vec<Reminder> = Vec::new();
        let mut k: usize = 0;
        while k < order.len()
            invariant
                k <= order@.len(),
                v == rows_view(rows@),
                forall|a: int| 0 <= a < order@.len() ==> #[trigger] order@[a] < rows@.len(),
                res@.len() == k,
                forall|a: int| 0 <= a < k ==> reminder_view(#[trigger] res@[a]) == reminder_of(v[order@[a] as int]),
                forall|a: int| 0 <= a < k ==> due_read_back(v[order@[a] as int], reminder_view(#[trigger] res@[a])),
            decreases order@.len() - k,
        {
            res.push(to_reminder(&rows[order[k]]));
            k = k + 1;
        }
        proof {
            let listing = res@.map_values(|m: Reminder| reminder_view(m));
            assert forall|a: int| 0 <= a < order@.len() implies #[trigger] listing[a] == reminder_of(v[order@[a] as int]) by {
                assert(listing[a] == reminder_view(res@[a]));
            }
            lemma_order_gives_listing(v, order@, listing);
            assert forall|a: int, j: int|
                #![trigger v[j], listing[a]]
                0 <= a < listing.len() && 0 <= j < v.len() && v[j].id == listing[a].0 implies due_read_back(
                v[j],
                listing[a],
            ) by {
                let p = order@[a] as int;
                assert(listing[a] == reminder_view(res@[a]));
                assert(due_read_back(v[p], reminder_view(res@[a])));
                assert(listing[a] == reminder_of(v[p]));
                if j < p {
                    assert(v[j].id < v[p].id);
                } else if j > p {
                    assert(v[p].id < v[j].id);
                }
            }
        }
        res
    }
}

} // verus!

verus! {

/// A reminder that was just added is in the active list: for a table whose
/// last row `r` is active, every active listing of it shows `r`'s
/// reminder.
pub proof fn law_added_is_listed(
    rows: Seq<RowView>,
    r: RowView,
    listing: Seq<(i64, Seq<char>, Option<Date>, i64)>,
)
    requires
        ids_increasing(rows.push(r)),
        is_active(r),
        is_active_listing(rows.push(r), listing),
    ensures
        exists|k: int| 0 <= k < listing.len() && listing[k] == reminder_of(r),
{
    let v = rows.push(r);
    let last = rows.len() as int;
    assert(v[last] == r);
    assert(is_active(v[last]));
    let k = choose|k: int| 0 <= k < listing.len() && #[trigger] listing[k].0 == v[last].id;
    assert(listed_row(v, listing[k]));
    let j = choose|j: int| 0 <= j < v.len() && is_active(v[j]) && listing[k] == reminder_of(#[trigger] v[j]);
    if j != last {
        assert(v[j].id < v[last].id);
    }
    assert(listing[k] == reminder_of(r));
}

/// What was added is what is read back: once `add` has appended the row
/// for a reminder, the active list shows that reminder with the text, due
/// date and creation time it was added with.
pub proof fn law_read_back_added(
    before: Seq<RowView>,
    id: i64,
    text: Seq<char>,
    due: Option<Date>,
    now: i64,
    listing: Seq<(i64, Seq<char>, Option<Date>, i64)>,
)
    requires
        ids_increasing(before.push(added_row(id, text, due, now))),
        due matches Some(d) ==> d.valid(),
        is_active_listing(before.push(added_row(id, text, due, now)), listing),
        dates_read_back(before.push(added_row(id, text, due, now)), listing),
    ensures
        exists|k: int| 0 <= k < listing.len() && listing[k] == (id, text, due, now),
{
    let r = added_row(id, text, due, now);
    let v = before.push(r);
    law_added_is_listed(before, r, listing);
    let k = choose|k: int| 0 <= k < listing.len() && listing[k] == reminder_of(r);
    let last = before.len() as int;
    assert(v[last] == r);
    assert(due_read_back(v[last], listing[k]));
    match due {
        Some(d) => {
            assert(r.due == Some(ymd_text(d.year, d.month, d.day)));
            assert(listing[k].2 == Some(d));
        },
        None => {},
    }
    assert(listing[k] == (id, text, due, now));
}

/// `add` gives an id that no stored row has, keeps every earlier row as it
/// was, and stores the time it was handed (the table never reads a clock).
pub proof fn law_add_fresh(before: Seq<RowView>, id: i64, text: Seq<char>, due: Option<Date>, now: i64)
    requires
        ids_increasing(before.push(added_row(id, text, due, now))),
    ensures
        forall|i: int| 0 <= i < before.len() ==> (#[trigger] before[i]).id != id,
        before.push(added_row(id, text, due, now)).subrange(0, before.len() as int) == before,
        before.push(added_row(id, text, due, now)).last().created_at == now,
        before.push(added_row(id, text, due, now)).last().dismissed_at is None,
{
    let v = before.push(added_row(id, text, due, now));
    assert forall|i: int| 0 <= i < before.len() implies (#[trigger] before[i]).id != id by {
        assert(v[i] == before[i]);
        assert(v[before.len() as int].id == id);
    }
    assert(v.subrange(0, before.len() as int) =~= before);
}

/// Earliest due first: in the active list, a reminder listed before one
/// that shows a due date shows one too, and it is not due later.
pub proof fn law_active_by_due_date(
    rows: Seq<RowView>,
    listing: Seq<(i64, Seq<char>, Option<Date>, i64)>,
    k: int,
    l: int,
)
    requires
        ids_increasing(rows),
        is_active_listing(rows, listing),
        0 <= k < l < listing.len(),
        listing[l].2 is Some,
    ensures
        listing[k].2 is Some,
        !listing[l].2->0.before(listing[k].2->0),
{
    let a = lemma_listing_entry(rows, listing, k);
    let b = lemma_listing_entry(rows, listing, l);
    assert(row_before(rows[a], rows[b]));
}

/// Dismissing a reminder takes it out of the active list.
pub proof fn law_dismissed_not_listed(
    rows: Seq<RowView>,
    id: i64,
    now: i64,
    listing: Seq<(i64, Seq<char>, Option<Date>, i64)>,
)
    requires
        is_active_listing(dismiss_spec(rows, id, now), listing),
    ensures
        forall|k: int| 0 <= k < listing.len() ==> (#[trigger] listing[k]).0 != id,
{
    let v = dismiss_spec(rows, id, now);
    assert forall|k: int| 0 <= k < listing.len() implies (#[trigger] listing[k]).0 != id by {
        assert(listed_row(v, listing[k]));
        let j = choose|j: int| 0 <= j < v.len() && is_active(v[j]) && listing[k] == reminder_of(#[trigger] v[j]);
        assert(v[j] == (if rows[j].id == id {
            RowView { dismissed_at: Some(now), ..rows[j] }
        } else {
            rows[j]
        }));
    }
}

/// Dismissal is soft: every row stays, with the same id, text, due date and
/// creation time; only the dismissed row's dismissal time changes.
pub proof fn law_dismiss_is_soft(rows: Seq<RowView>, id: i64, now: i64)
    ensures
        dismiss_spec(rows, id, now).len() == rows.len(),
        forall|i: int|
            0 <= i < rows.len() ==> {
                let after = #[trigger] dismiss_spec(rows, id, now)[i];
                &&& after.id == rows[i].id
                &&& after.text == rows[i].text
                &&& after.due == rows[i].due
                &&& after.created_at == rows[i].created_at
                &&& after.dismissed_at == if rows[i].id == id {
                    Some(now)
                } else {
                    rows[i].dismissed_at
                }
            },
{
}

/// Dated reminders come before undated ones in the active list: once a
/// reminder without a due date is listed, every later one has none either.
pub proof fn law_dated_before_undated(
    rows: Seq<RowView>,
    listing: Seq<(i64, Seq<char>, Option<Date>, i64)>,
    k: int,
    l: int,
)
    requires
        ids_increasing(rows),
        is_active_listing(rows, listing),
        0 <= k < l < listing.len(),
        listing[k].2 is None,
    ensures
        listing[l].2 is None,
{
    let a = lemma_listing_entry(rows, listing, k);
    let b = lemma_listing_entry(rows, listing, l);
    assert(row_before(rows[a], rows[b]));
}

} // verus!

verus! {

/// The row an entry of an active listing comes from: an active row with
/// the entry's id, which is the only row with that id.
proof fn lemma_listing_entry(
    rows: Seq<RowView>,
    listing: Seq<(i64, Seq<char>, Option<Date>, i64)>,
    k: int,
) -> (j: int)
    requires
        ids_increasing(rows),
        is_active_listing(rows, listing),
        0 <= k < listing.len(),
    ensures
        0 <= j < rows.len(),
        is_active(rows[j]),
        listing[k] == reminder_of(rows[j]),
        forall|i: int| 0 <= i < rows.len() && rows[i].id == listing[k].0 ==> i == j,
{
    assert(listed_row(rows, listing[k]));
    let j = choose|j: int| 0 <= j < rows.len() && is_active(rows[j]) && listing[k] == reminder_of(#[trigger] rows[j]);
    assert forall|i: int| 0 <= i < rows.len() && rows[i].id == listing[k].0 implies i == j by {
        if i < j {
            assert(rows[i].id < rows[j].id);
        } else if i > j {
            assert(rows[j].id < rows[i].id);
        }
    }
    j
}

proof fn lemma_listing_step(
    rows: Seq<RowView>,
    p: Seq<(i64, Seq<char>, Option<Date>, i64)>,
    q: Seq<(i64, Seq<char>, Option<Date>, i64)>,
    f: int,
)
    requires
        ids_increasing(rows),
        is_active_listing(rows, p),
        is_active_listing(rows, q),
        0 <= f < p.len(),
        forall|m: int| 0 <= m < f ==> p[m] == q[m],
    ensures
        f < q.len() && p[f] == q[f],
{
    let a = lemma_listing_entry(rows, p, f);
    assert(is_active(rows[a]));
    let l = choose|l: int| 0 <= l < q.len() && #[trigger] q[l].0 == rows[a].id;
    let al = lemma_listing_entry(rows, q, l);
    assert(al == a);
    assert(q[l] == p[f]);
    lemma_row_order(rows[a], rows[a], rows[a]);
    if l < f {
        assert(p[l] == q[l]);
        assert(row_before(rows[a], rows[a]));
    }
    if f < q.len() && p[f] != q[f] {
        let b = lemma_listing_entry(rows, q, f);
        let m = choose|m: int| 0 <= m < p.len() && #[trigger] p[m].0 == rows[b].id;
        let bm = lemma_listing_entry(rows, p, m);
        assert(bm == b);
        lemma_row_order(rows[b], rows[b], rows[b]);
        if m < f {
            assert(q[m] == p[m]);
            assert(row_before(rows[b], rows[b]));
        }
        assert(l != f);
        assert(m != f);
        assert(row_before(rows[b], rows[a]));
        assert(row_before(rows[a], rows[b]));
        lemma_row_order(rows[a], rows[b], rows[a]);
    }
}

proof fn lemma_listing_equal_upto(
    rows: Seq<RowView>,
    p: Seq<(i64, Seq<char>, Option<Date>, i64)>,
    q: Seq<(i64, Seq<char>, Option<Date>, i64)>,
    f: int,
)
    requires
        ids_increasing(rows),
        is_active_listing(rows, p),
        is_active_listing(rows, q),
        0 <= f <= p.len(),
        f <= q.len(),
    ensures
        forall|m: int| 0 <= m < f ==> p[m] == q[m],
    decreases f,
{
    if f > 0 {
        lemma_listing_equal_upto(rows, p, q, f - 1);
        lemma_listing_step(rows, p, q, f - 1);
    }
}

/// The active list is unique: the contract of [`ReminderStore::active`]
/// allows exactly one result for a table.
pub proof fn law_active_listing_unique(
    rows: Seq<RowView>,
    p: Seq<(i64, Seq<char>, Option<Date>, i64)>,
    q: Seq<(i64, Seq<char>, Option<Date>, i64)>,
)
    requires
        ids_increasing(rows),
        is_active_listing(rows, p),
        is_active_listing(rows, q),
    ensures
        p == q,
{
    let n = if p.len() < q.len() { p.len() } else { q.len() };
    lemma_listing_equal_upto(rows, p, q, n as int);
    if p.len() > q.len() {
        lemma_listing_step(rows, p, q, n as int);
    } else if q.len() > p.len() {
        lemma_listing_step(rows, q, p, n as int);
    }
    assert(p =~= q);
}

} // verus!
