//! The employee table and its invariants: at most one record per `emp_id`,
//! rows kept in ascending `emp_id` order, and every stored record valid.
//! Creation, ordered listing and wallet verification are stated against a
//! mathematical view of the table, a sequence of records.

use vstd::prelude::*;
use crate::api::{ApiError, ValidationFault, VerifyStatus, status_decision, submitted_of};
use crate::validation::{
    valid_emp_id, valid_pub_key, seq_num, check_emp_id, check_pub_key, emp_id_value,
    lemma_seq_num_injective, lex_less, lemma_key_order_is_lexicographic,
};

verus! {

/// One stored employee record: an eight-digit identifier and the wallet
/// public key on file for it.
pub struct Employee {
    pub emp_id: String,
    pub pub_key: String,
}

/// The mathematical view of a record: both fields as character sequences.
pub ghost struct EmployeeModel {
    pub emp_id: Seq<char>,
    pub pub_key: Seq<char>,
}

impl View for Employee {
    type V = EmployeeModel;

    open spec fn view(&self) -> EmployeeModel {
        EmployeeModel { emp_id: self.emp_id@, pub_key: self.pub_key@ }
    }
}

impl Clone for Employee {
    fn clone(&self) -> (r: Self)
        ensures
            r@ == self@,
    {
        Employee { emp_id: self.emp_id.clone(), pub_key: self.pub_key.clone() }
    }
}

/// The views of a sequence of records.
pub open spec fn models(rows: Seq<Employee>) -> Seq<EmployeeModel> {
    rows.map_values(|e: Employee| e@)
}

/// The sort key of a record: the number its eight digits denote.
pub open spec fn emp_key(m: EmployeeModel) -> int {
    seq_num(m.emp_id)
}

/// A record is valid when both of its fields pass validation.
pub open spec fn rec_valid(m: EmployeeModel) -> bool {
    valid_emp_id(m.emp_id) && valid_pub_key(m.pub_key)
}

/// Every record in the table is valid.
pub open spec fn all_valid(rows: Seq<EmployeeModel>) -> bool {
    forall|i: int| 0 <= i < rows.len() ==> rec_valid(#[trigger] rows[i])
}

/// Rows are in strictly ascending `emp_id` order. For eight-digit
/// identifiers, numeric order coincides with lexicographic order, and strict
/// ascent means no identifier occurs twice.
pub open spec fn sorted_strict(rows: Seq<EmployeeModel>) -> bool {
    forall|i: int, j: int|
        0 <= i < j < rows.len() ==> emp_key(#[trigger] rows[i]) < emp_key(#[trigger] rows[j])
}

/// Some row holds exactly this identifier.
pub open spec fn contains_id(rows: Seq<EmployeeModel>, id: Seq<char>) -> bool {
    exists|i: int| 0 <= i < rows.len() && (#[trigger] rows[i]).emp_id == id
}

/// No two rows hold the same identifier.
pub open spec fn unique_ids(rows: Seq<EmployeeModel>) -> bool {
    forall|i: int, j: int|
        0 <= i < j < rows.len() ==> (#[trigger] rows[i]).emp_id != (#[trigger] rows[j]).emp_id
}

/// The stored key for an identifier: the key of the first matching row, or
/// nothing when no row matches.
pub open spec fn lookup_spec(rows: Seq<EmployeeModel>, id: Seq<char>) -> Option<Seq<char>>
    decreases rows.len(),
{
    if rows.len() == 0 {
        None
    } else if rows[0].emp_id == id {
        Some(rows[0].pub_key)
    } else {
        lookup_spec(rows.skip(1), id)
    }
}

/// What creating a record does, as a relation between the table before and
/// after: a malformed `emp_id` or an undersized `pub_key` is rejected before
/// any change, a duplicate `emp_id` is a conflict leaving the table as it
/// was, and otherwise the record enters at its sorted position.
pub open spec fn create_transition(
    pre: Seq<EmployeeModel>,
    id: Seq<char>,
    key: Seq<char>,
    post: Seq<EmployeeModel>,
    r: Result<(), ApiError>,
) -> bool {
    if !valid_emp_id(id) {
        post == pre && r == Err::<(), ApiError>(ApiError::Validation(ValidationFault::BadEmpId))
    } else if !valid_pub_key(key) {
        post == pre && r == Err::<(), ApiError>(ApiError::Validation(ValidationFault::ShortPubKey))
    } else if contains_id(pre, id) {
        post == pre && r == Err::<(), ApiError>(ApiError::Conflict)
    } else {
        r == Ok::<(), ApiError>(()) && exists|i: int|
            0 <= i <= pre.len() && post == pre.insert(i, EmployeeModel { emp_id: id, pub_key: key })
                && (forall|j: int| 0 <= j < i ==> emp_key(#[trigger] pre[j]) < seq_num(id))
                && (forall|j: int| i <= j < pre.len() ==> seq_num(id) < emp_key(#[trigger] pre[j]))
    }
}

/// The employee table, rows kept sorted by `emp_id` with no duplicates.
pub struct EmployeeStore {
    rows: Vec<Employee>,
}

impl View for EmployeeStore {
    type V = Seq<EmployeeModel>;

    closed spec fn view(&self) -> Seq<EmployeeModel> {
        models(self.rows@)
    }
}

/// The first index whose key is at least `k`, in a table sorted by key.
fn find_pos(rows: &Vec<Employee>, k: u32) -> (i: usize)
    requires
        all_valid(models(rows@)),
    ensures
        i <= rows@.len(),
        forall|j: int| 0 <= j < i ==> emp_key(#[trigger] models(rows@)[j]) < k as int,
        i < rows@.len() ==> emp_key(models(rows@)[i as int]) >= k as int,
{
    let mut i: usize = 0;
    while i < rows.len()
        invariant
            all_valid(models(rows@)),
            i <= rows@.len(),
            forall|j: int| 0 <= j < i ==> emp_key(#[trigger] models(rows@)[j]) < k as int,
        decreases rows@.len() - i,
    {
        proof {
            assert(rec_valid(models(rows@)[i as int]));
        }
        let ki = emp_id_value(rows[i].emp_id.as_str());
        if ki >= k {
            return i;
        }
        i = i + 1;
    }
    i
}

impl EmployeeStore {
    /// Whether the table's invariants hold: every row valid, rows strictly
    /// ascending by `emp_id`.
    pub open spec fn wf(&self) -> bool {
        all_valid(self@) && sorted_strict(self@)
    }

    /// An empty table.
    pub fn new() -> (r: EmployeeStore)
        ensures
            r.wf(),
            r@ == Seq::<EmployeeModel>::empty(),
    {
        let r = EmployeeStore { rows: Vec::new() };
        proof {
            assert(r@ =~= Seq::<EmployeeModel>::empty());
        }
        r
    }

    /// Creates a record: validates, rejects a duplicate `emp_id` as a
    /// conflict, and otherwise inserts the record at its sorted position.
    pub fn insert_employee(&mut self, emp_id: &str, pub_key: &str) -> (r: Result<(), ApiError>)
        requires
            old(self).wf(),
        ensures
            final(self).wf(),
            create_transition(old(self)@, emp_id@, pub_key@, final(self)@, r),
    {
        if !check_emp_id(emp_id) {
            return Err(ApiError::Validation(ValidationFault::BadEmpId));
        }
        if !check_pub_key(pub_key) {
            return Err(ApiError::Validation(ValidationFault::ShortPubKey));
        }
        let k = emp_id_value(emp_id);
        let ghost pre = self@;
        let i = find_pos(&self.rows, k);
        if i < self.rows.len() {
            proof {
                assert(rec_valid(pre[i as int]));
            }
            let ki = emp_id_value(self.rows[i].emp_id.as_str());
            if ki == k {
                proof {
                    lemma_seq_num_injective(pre[i as int].emp_id, emp_id@);
                    assert(contains_id(pre, emp_id@));
                }
                return Err(ApiError::Conflict);
            }
            proof {
                assert(emp_key(pre[i as int]) > k as int);
            }
        }
        proof {
            assert(!contains_id(pre, emp_id@)) by {
                if contains_id(pre, emp_id@) {
                    let j = choose|j: int| 0 <= j < pre.len() && (#[trigger] pre[j]).emp_id
                        == emp_id@;
                    assert(emp_key(pre[j]) == k as int);
                    if j < i {
                        assert(emp_key(pre[j]) < k as int);
                    } else {
                        assert(i < pre.len());
                        if j == i {
                            assert(emp_key(pre[j]) > k as int);
                        } else {
                            assert(emp_key(pre[i as int]) < emp_key(pre[j]));
                        }
                    }
                }
            }
        }
        let rec = Employee { emp_id: emp_id.to_owned(), pub_key: pub_key.to_owned() };
        let ghost m = rec@;
        self.rows.insert(i, rec);
        proof {
            pre.insert_ensures(i as int, m);
            assert(self@ =~= pre.insert(i as int, m)) by {
                assert(self.rows@.len() == pre.len() + 1);
                assert(forall|idx: int|
                    0 <= idx < self.rows@.len() ==> models(self.rows@)[idx] == (
                    #[trigger] self.rows@[idx])@);
            }
            assert(forall|j: int| 0 <= j < i ==> emp_key(#[trigger] pre[j]) < seq_num(emp_id@));
            assert(forall|j: int|
                i <= j < pre.len() ==> seq_num(emp_id@) < emp_key(#[trigger] pre[j]));
            assert(create_transition(pre, emp_id@, pub_key@, self@, Ok::<(), ApiError>(())));
            assert(all_valid(self@)) by {
                assert(forall|idx: int|
                    0 <= idx < self@.len() ==> rec_valid(#[trigger] self@[idx]));
            }
            assert(sorted_strict(self@)) by {
                assert(forall|a: int, b: int|
                    0 <= a < b < self@.len() ==> emp_key(#[trigger] self@[a]) < emp_key(
                        #[trigger] self@[b]));
            }
        }
        Ok(())
    }

    /// All records, in ascending `emp_id` order. The result is exactly the
    /// table's contents; an empty table gives an empty list; the identifier
    /// strings come out in strictly ascending lexicographic order.
    pub fn list_employees(&self) -> (r: Vec<Employee>)
        requires
            self.wf(),
        ensures
            models(r@) == self@,
            sorted_strict(models(r@)),
            forall|i: int, j: int|
                0 <= i < j < r@.len() ==> lex_less(
                    (#[trigger] models(r@)[i]).emp_id,
                    (#[trigger] models(r@)[j]).emp_id,
                ),
    {
        let mut out: Vec<Employee> = Vec::new();
        let mut i: usize = 0;
        while i < self.rows.len()
            invariant
                i <= self.rows@.len(),
                out@.len() == i,
                forall|j: int| 0 <= j < i ==> (#[trigger] out@[j])@ == models(self.rows@)[j],
            decreases self.rows@.len() - i,
        {
            out.push(self.rows[i].clone());
            i = i + 1;
        }
        proof {
            assert(models(out@) =~= self@);
            lemma_listing_is_lex_sorted(self@);
        }
        out
    }

    /// The stored key for `emp_id`, or nothing when no record matches.
    pub fn lookup(&self, emp_id: &str) -> (r: Option<&String>)
        requires
            self.wf(),
        ensures
            match r {
                Some(key) => lookup_spec(self@, emp_id@) == Some(key@),
                None => lookup_spec(self@, emp_id@) is None,
            },
    {
        if !check_emp_id(emp_id) {
            proof {
                lemma_not_contained_lookup_none(self@, emp_id@);
            }
            return None;
        }
        let k = emp_id_value(emp_id);
        let i = find_pos(&self.rows, k);
        if i < self.rows.len() {
            proof {
                assert(rec_valid(self@[i as int]));
            }
            let ki = emp_id_value(self.rows[i].emp_id.as_str());
            if ki == k {
                proof {
                    lemma_seq_num_injective(self@[i as int].emp_id, emp_id@);
                    assert forall|j: int| 0 <= j < self@.len() && j != i as int implies (
                    #[trigger] self@[j]).emp_id != emp_id@ by {
                        if self@[j].emp_id == emp_id@ {
                            assert(emp_key(self@[j]) == emp_key(self@[i as int]));
                        }
                    }
                    lemma_lookup_at_unique_match(self@, emp_id@, i as int);
                }
                return Some(&self.rows[i].pub_key);
            }
            proof {
                assert(emp_key(self@[i as int]) != k as int);
            }
        }
        proof {
            assert(!contains_id(self@, emp_id@)) by {
                if contains_id(self@, emp_id@) {
                    let j = choose|j: int| 0 <= j < self@.len() && (#[trigger] self@[j]).emp_id
                        == emp_id@;
                    assert(emp_key(self@[j]) == k as int);
                    if j < i {
                        assert(emp_key(self@[j]) < k as int);
                    } else if j == i {
                        assert(emp_key(self@[j]) >= k as int);
                    } else {
                        assert(emp_key(self@[i as int]) < emp_key(self@[j]));
                    }
                }
            }
            lemma_not_contained_lookup_none(self@, emp_id@);
        }
        None
    }

    /// Verifies a submitted wallet key against the stored record: not-found
    /// without a record, connected on exact equality, mismatched otherwise.
    /// A request without a wallet key compares as the empty string.
    pub fn verify_employee(&self, emp_id: &str, wallet_pubkey: Option<&str>) -> (st: VerifyStatus)
        requires
            self.wf(),
        ensures
            st == status_decision(lookup_spec(self@, emp_id@), submitted_of(wallet_pubkey)),
    {
        let stored = self.lookup(emp_id);
        crate::api::wallet_status(stored, wallet_pubkey)
    }
}

/// Strictly ascending order leaves no room for a duplicate: a table that
/// satisfies the sort invariant holds at most one record per `emp_id`.
pub proof fn lemma_sorted_implies_unique(rows: Seq<EmployeeModel>)
    requires
        sorted_strict(rows),
    ensures
        unique_ids(rows),
{
    assert forall|i: int, j: int| 0 <= i < j < rows.len() implies (#[trigger] rows[i]).emp_id != (
    #[trigger] rows[j]).emp_id by {
        if rows[i].emp_id == rows[j].emp_id {
            assert(emp_key(rows[i]) == emp_key(rows[j]));
        }
    }
}

/// A well-formed table is ascending by `emp_id` in the lexicographic sense:
/// what listing returns has the identifier strings themselves in strictly
/// ascending order, not merely their numeric keys.
pub proof fn lemma_listing_is_lex_sorted(rows: Seq<EmployeeModel>)
    requires
        all_valid(rows),
        sorted_strict(rows),
    ensures
        forall|i: int, j: int|
            0 <= i < j < rows.len() ==> lex_less(
                (#[trigger] rows[i]).emp_id,
                (#[trigger] rows[j]).emp_id,
            ),
{
    assert forall|i: int, j: int| 0 <= i < j < rows.len() implies lex_less(
        (#[trigger] rows[i]).emp_id,
        (#[trigger] rows[j]).emp_id,
    ) by {
        assert(rec_valid(rows[i]));
        assert(rec_valid(rows[j]));
        lemma_key_order_is_lexicographic(rows[i].emp_id, rows[j].emp_id);
    }
}

/// A malformed `emp_id` is rejected as a validation fault and the table is
/// left exactly as it was: no insert happens.
pub proof fn lemma_invalid_emp_id_rejected(
    pre: Seq<EmployeeModel>,
    id: Seq<char>,
    key: Seq<char>,
    post: Seq<EmployeeModel>,
    r: Result<(), ApiError>,
)
    requires
        create_transition(pre, id, key, post, r),
        !valid_emp_id(id),
    ensures
        post == pre,
        r == Err::<(), ApiError>(ApiError::Validation(ValidationFault::BadEmpId)),
{
}

/// An undersized `pub_key` is rejected as a validation fault and the table
/// is left exactly as it was: no insert happens.
pub proof fn lemma_short_pub_key_rejected(
    pre: Seq<EmployeeModel>,
    id: Seq<char>,
    key: Seq<char>,
    post: Seq<EmployeeModel>,
    r: Result<(), ApiError>,
)
    requires
        create_transition(pre, id, key, post, r),
        valid_emp_id(id),
        !valid_pub_key(key),
    ensures
        post == pre,
        r == Err::<(), ApiError>(ApiError::Validation(ValidationFault::ShortPubKey)),
{
}

/// Creating the same `emp_id` twice conflicts on the second attempt, the
/// second attempt changes nothing, and the stored key remains the
/// first-inserted one.
pub proof fn lemma_duplicate_insert_conflicts(
    pre: Seq<EmployeeModel>,
    id: Seq<char>,
    key1: Seq<char>,
    mid: Seq<EmployeeModel>,
    key2: Seq<char>,
    post: Seq<EmployeeModel>,
    r2: Result<(), ApiError>,
)
    requires
        create_transition(pre, id, key1, mid, Ok::<(), ApiError>(())),
        create_transition(mid, id, key2, post, r2),
        valid_pub_key(key2),
    ensures
        r2 == Err::<(), ApiError>(ApiError::Conflict),
        post == mid,
        lookup_spec(post, id) == Some(key1),
{
    let m1 = EmployeeModel { emp_id: id, pub_key: key1 };
    let i = choose|i: int|
        0 <= i <= pre.len() && mid == pre.insert(i, m1) && (forall|j: int|
            0 <= j < i ==> emp_key(#[trigger] pre[j]) < seq_num(id)) && (forall|j: int|
            i <= j < pre.len() ==> seq_num(id) < emp_key(#[trigger] pre[j]));
    pre.insert_ensures(i, m1);
    assert(mid[i].emp_id == id);
    assert(contains_id(mid, id));
    assert forall|j: int| 0 <= j < mid.len() && j != i implies (#[trigger] mid[j]).emp_id
        != id by {
        if j < i {
            assert(mid[j] == pre[j]);
            assert(emp_key(pre[j]) < seq_num(id));
            if pre[j].emp_id == id {
                assert(emp_key(pre[j]) == seq_num(id));
            }
        } else {
            assert(mid[j] == pre[j - 1]);
            assert(seq_num(id) < emp_key(pre[j - 1]));
            if pre[j - 1].emp_id == id {
                assert(emp_key(pre[j - 1]) == seq_num(id));
            }
        }
    }
    lemma_lookup_at_unique_match(mid, id, i);
}

/// An identifier no row holds looks up to nothing.
pub proof fn lemma_not_contained_lookup_none(rows: Seq<EmployeeModel>, id: Seq<char>)
    requires
        !contains_id(rows, id),
    ensures
        lookup_spec(rows, id) is None,
    decreases rows.len(),
{
    if rows.len() > 0 {
        assert(rows[0].emp_id != id);
        let rest = rows.skip(1);
        assert(!contains_id(rest, id)) by {
            if contains_id(rest, id) {
                let j = choose|j: int| 0 <= j < rest.len() && (#[trigger] rest[j]).emp_id == id;
                assert(rows[j + 1].emp_id == id);
            }
        }
        lemma_not_contained_lookup_none(rest, id);
    }
}

/// When exactly one row holds the identifier, lookup returns that row's key.
pub proof fn lemma_lookup_at_unique_match(rows: Seq<EmployeeModel>, id: Seq<char>, i: int)
    requires
        0 <= i < rows.len(),
        rows[i].emp_id == id,
        forall|j: int| 0 <= j < rows.len() && j != i ==> (#[trigger] rows[j]).emp_id != id,
    ensures
        lookup_spec(rows, id) == Some(rows[i].pub_key),
    decreases rows.len(),
{
    if i == 0 {
    } else {
        assert(rows[0].emp_id != id);
        let rest = rows.skip(1);
        assert(rest[i - 1].emp_id == id);
        assert(forall|j: int| 0 <= j < rest.len() && j != i - 1 ==> (#[trigger] rest[j]).emp_id
            != id) by {
            assert(forall|j: int|
                0 <= j < rest.len() ==> (#[trigger] rest[j]).emp_id == rows[j + 1].emp_id);
        }
        lemma_lookup_at_unique_match(rest, id, i - 1);
    }
}

} // verus!
