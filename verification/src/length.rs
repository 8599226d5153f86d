//! The block-length accountant.
//!
//! The block being built owns a data-availability grid of `rows * cols`
//! scalars. Every admitted transaction reserves the padded form of its
//! serialized length, recorded per application identifier. The accountant
//! takes the current snapshot and hands back the snapshot to commit, so a
//! rejection leaves the recorded state untouched.

use vstd::prelude::*;

use crate::AppId;

verus! {

broadcast use vstd::seq::group_seq_axioms, vstd::std_specs::vec::group_vec_axioms;

/// Bytes carried by one scalar of the grid: serialized lengths are padded up
/// to a whole number of scalars before they are accounted.
pub const SCALAR_BYTES: u32 = 32;

/// Dimensions of the block's data-availability grid: its scalar capacity is
/// `rows * cols`.
#[derive(Clone, Copy, PartialEq, Eq, Structural, Debug)]
pub struct BlockLength {
    /// Rows of the grid.
    pub rows: u32,
    /// Columns of the grid.
    pub cols: u32,
}

/// A serialized length rounded up to a whole number of scalars, in bytes.
pub open spec fn spec_padded_len(len: nat) -> int {
    ((len + (SCALAR_BYTES - 1)) as int / (SCALAR_BYTES as int)) * (SCALAR_BYTES as int)
}

/// Padded bytes recorded by the accounting entries `s`, summed over all
/// applications.
pub open spec fn sum_padded(s: Seq<(u32, u32)>) -> int
    decreases s.len(),
{
    if s.len() == 0 {
        0
    } else {
        sum_padded(s.drop_last()) + s.last().1
    }
}

/// Position of the entry for `app` in `s`, or `-1` when there is none.
pub open spec fn find_app(s: Seq<(u32, u32)>, app: u32) -> int
    decreases s.len(),
{
    if s.len() == 0 {
        -1
    } else if s[0].0 == app {
        0
    } else if find_app(s.drop_first(), app) == -1 {
        -1
    } else {
        find_app(s.drop_first(), app) + 1
    }
}

/// No application identifier owns two entries.
pub open spec fn keys_unique(s: Seq<(u32, u32)>) -> bool {
    forall|i: int, j: int| 0 <= i < j < s.len() ==> (#[trigger] s[i]).0 != (#[trigger] s[j]).0
}

/// Recording `padded` further bytes under `app`: the application's entry
/// grows (or appears), unless its accumulated length would overflow.
pub open spec fn spec_add_padded(s: Seq<(u32, u32)>, app: u32, padded: u32) -> Option<
    Seq<(u32, u32)>,
> {
    let i = find_app(s, app);
    if i == -1 {
        Some(s.push((app, padded)))
    } else if s[i].1 + padded > u32::MAX {
        None
    } else {
        Some(s.update(i, (app, (s[i].1 + padded) as u32)))
    }
}

/// One transaction's contribution to the accounting entries: its length is
/// padded and recorded under its application, and the addition fails on any
/// arithmetic overflow.
pub open spec fn spec_add_tx(s: Seq<(u32, u32)>, app: u32, len: nat) -> Option<Seq<(u32, u32)>> {
    if spec_padded_len(len) > u32::MAX {
        None
    } else {
        match spec_add_padded(s, app, spec_padded_len(len) as u32) {
            None => None,
            Some(s2) => if sum_padded(s2) > u32::MAX {
                None
            } else {
                Some(s2)
            },
        }
    }
}

/// The accountant's whole decision: the entries to commit when the
/// transaction is admitted, `None` when a conversion or addition overflows
/// or the grid's scalar capacity would be exceeded.
pub open spec fn spec_next_len(s: Seq<(u32, u32)>, app: u32, len: nat, bl: BlockLength) -> Option<
    Seq<(u32, u32)>,
> {
    if len > u32::MAX {
        None
    } else {
        match spec_add_tx(s, app, len) {
            None => None,
            Some(s2) => if bl.rows * bl.cols > u32::MAX {
                None
            } else if sum_padded(s2) / (SCALAR_BYTES as int) <= bl.rows * bl.cols {
                Some(s2)
            } else {
                None
            },
        }
    }
}

/// What `find_app` finds: the first entry with the given identifier, and
/// nothing when no entry has it.
pub proof fn lemma_find_app(s: Seq<(u32, u32)>, app: u32)
    ensures
        find_app(s, app) == -1 ==> forall|i: int| 0 <= i < s.len() ==> (#[trigger] s[i]).0 != app,
        find_app(s, app) != -1 ==> 0 <= find_app(s, app) < s.len() && s[find_app(s, app)].0 == app
            && (forall|i: int| 0 <= i < find_app(s, app) ==> (#[trigger] s[i]).0 != app),
    decreases s.len(),
{
    if s.len() == 0 {
    } else if s[0].0 == app {
    } else {
        lemma_find_app(s.drop_first(), app);
        let r = find_app(s.drop_first(), app);
        if r == -1 {
            assert forall|i: int| 0 <= i < s.len() implies (#[trigger] s[i]).0 != app by {
                if i > 0 {
                    assert(s.drop_first()[i - 1] == s[i]);
                }
            }
        } else {
            assert(s[r + 1] == s.drop_first()[r]);
            assert forall|i: int| 0 <= i < r + 1 implies (#[trigger] s[i]).0 != app by {
                if i > 0 {
                    assert(s.drop_first()[i - 1] == s[i]);
                }
            }
        }
    }
}

/// Appending an entry adds its padded bytes to the sum.
pub proof fn lemma_sum_push(s: Seq<(u32, u32)>, e: (u32, u32))
    ensures
        sum_padded(s.push(e)) == sum_padded(s) + e.1,
{
    assert(s.push(e).drop_last() =~= s);
}

/// Replacing an entry shifts the sum by the difference.
pub proof fn lemma_sum_update(s: Seq<(u32, u32)>, i: int, e: (u32, u32))
    requires
        0 <= i < s.len(),
    ensures
        sum_padded(s.update(i, e)) == sum_padded(s) - s[i].1 + e.1,
    decreases s.len(),
{
    if i == s.len() - 1 {
        assert(s.update(i, e).drop_last() =~= s.drop_last());
        assert(s.update(i, e).last() == e);
    } else {
        assert(s.update(i, e).drop_last() =~= s.drop_last().update(i, e));
        assert(s.update(i, e).last() == s.last());
        lemma_sum_update(s.drop_last(), i, e);
    }
}

/// Pads a serialized length up to a whole number of scalars, in bytes.
/// Refuses lengths whose padded form does not fit the accounting width.
pub fn padded_len(len: u32) -> (r: Option<u32>)
    ensures
        spec_padded_len(len as nat) <= u32::MAX ==> r == Some(spec_padded_len(len as nat) as u32),
        spec_padded_len(len as nat) > u32::MAX ==> r is None,
{
    let p: u64 = ((len as u64) + ((SCALAR_BYTES as u64) - 1)) / (SCALAR_BYTES as u64) * (
    SCALAR_BYTES as u64);
    if p <= u32::MAX as u64 {
        Some(p as u32)
    } else {
        None
    }
}

/// An admitted step changes the sum of the recorded lengths by exactly the
/// transaction's padded length, and what it leaves recorded fits the grid.
pub proof fn lemma_next_len_sum(s: Seq<(u32, u32)>, app: u32, len: nat, bl: BlockLength)
    requires
        spec_next_len(s, app, len, bl) is Some,
    ensures
        sum_padded(spec_next_len(s, app, len, bl).unwrap()) == sum_padded(s) + spec_padded_len(
            len,
        ),
        sum_padded(spec_next_len(s, app, len, bl).unwrap()) / (SCALAR_BYTES as int) <= bl.rows
            * bl.cols,
{
    let i = find_app(s, app);
    lemma_find_app(s, app);
    let padded = spec_padded_len(len) as u32;
    if i == -1 {
        lemma_sum_push(s, (app, padded));
    } else {
        lemma_sum_update(s, i, (app, (s[i].1 + padded) as u32));
    }
}

/// A transaction whose recording would lift the grand total of scalars over
/// the grid's capacity is rejected.
pub proof fn lemma_over_capacity_rejected(s: Seq<(u32, u32)>, app: u32, len: nat, bl: BlockLength)
    requires
        spec_add_tx(s, app, len) is Some,
        sum_padded(spec_add_tx(s, app, len).unwrap()) / (SCALAR_BYTES as int) > bl.rows * bl.cols,
    ensures
        spec_next_len(s, app, len, bl) is None,
{
}

/// The accounting left by a whole sequence of transactions, each admitted in
/// turn on top of the one before.
pub open spec fn spec_apply_all(s: Seq<(u32, u32)>, txs: Seq<(u32, u32)>, bl: BlockLength) -> Option<
    Seq<(u32, u32)>,
>
    decreases txs.len(),
{
    if txs.len() == 0 {
        Some(s)
    } else {
        match spec_apply_all(s, txs.drop_last(), bl) {
            None => None,
            Some(mid) => spec_next_len(mid, txs.last().0, txs.last().1 as nat, bl),
        }
    }
}

/// The padded lengths of a sequence of transactions, summed. Each
/// transaction is its application identifier and its serialized length.
pub open spec fn sum_padded_txs(txs: Seq<(u32, u32)>) -> int
    decreases txs.len(),
{
    if txs.len() == 0 {
        0
    } else {
        sum_padded_txs(txs.drop_last()) + spec_padded_len(txs.last().1 as nat)
    }
}

/// Accounting is monotonic and atomic: when a sequence of transactions is
/// admitted one after another, their padded lengths sum exactly to the
/// growth of the recorded total, and the final grand total of scalars still
/// fits the grid's capacity. A step that fails — for capacity or overflow —
/// yields no state at all, so nothing partial is ever recorded.
pub proof fn lemma_accounting_monotonic(s: Seq<(u32, u32)>, txs: Seq<(u32, u32)>, bl: BlockLength)
    requires
        spec_apply_all(s, txs, bl) is Some,
    ensures
        sum_padded(spec_apply_all(s, txs, bl).unwrap()) == sum_padded(s) + sum_padded_txs(txs),
        txs.len() > 0 ==> sum_padded(spec_apply_all(s, txs, bl).unwrap()) / (SCALAR_BYTES as int)
            <= bl.rows * bl.cols,
    decreases txs.len(),
{
    if txs.len() > 0 {
        lemma_accounting_monotonic(s, txs.drop_last(), bl);
        let mid = spec_apply_all(s, txs.drop_last(), bl).unwrap();
        lemma_next_len_sum(mid, txs.last().0, txs.last().1 as nat, bl);
    }
}

/// The recorded accounting for the block being built: padded bytes per
/// application identifier, with their running total.
pub struct ExtrinsicsLen {
    entries: Vec<(u32, u32)>,
    total_padded: u32,
}

impl View for ExtrinsicsLen {
    type V = Seq<(u32, u32)>;

    closed spec fn view(&self) -> Seq<(u32, u32)> {
        self.entries@
    }
}

impl ExtrinsicsLen {
    /// The running total of padded bytes, as recorded.
    pub closed spec fn spec_total(self) -> u32 {
        self.total_padded
    }

    /// Each application owns one entry, and the recorded total is exactly the
    /// sum of the recorded per-application lengths.
    pub open spec fn wf(self) -> bool {
        keys_unique(self@) && self.spec_total() == sum_padded(self@)
    }

    /// The empty accounting a freshly started block begins with.
    pub fn new() -> (r: Self)
        ensures
            r@ == Seq::<(u32, u32)>::empty(),
            r.spec_total() == 0,
            r.wf(),
    {
        ExtrinsicsLen { entries: Vec::new(), total_padded: 0 }
    }

    /// How many entries are recorded.
    pub fn num_entries(&self) -> (r: usize)
        ensures
            r == self@.len(),
    {
        self.entries.len()
    }

    /// The entry at a position: its application identifier and its
    /// accumulated padded bytes.
    pub fn entry(&self, i: usize) -> (r: (u32, u32))
        requires
            i < self@.len(),
        ensures
            r == self@[i as int],
    {
        self.entries[i]
    }

    /// The running total of padded bytes.
    pub fn total_padded_bytes(&self) -> (r: u32)
        ensures
            r == self.spec_total(),
    {
        self.total_padded
    }

    /// The grand total of scalars the recorded lengths occupy.
    pub fn total_num_scalars(&self) -> (r: u32)
        ensures
            r == self.spec_total() / SCALAR_BYTES,
    {
        self.total_padded / SCALAR_BYTES
    }

    /// Records `len` more serialized bytes under `app_id`: the length is
    /// padded, the application's entry grows (or appears) by it, and so does
    /// the running total. The whole addition is refused on any overflow, and
    /// `self` is never touched: the caller commits the returned snapshot.
    pub fn add_padded(&self, app_id: AppId, len: u32) -> (r: Option<ExtrinsicsLen>)
        requires
            self.wf(),
        ensures
            r is Some <==> spec_add_tx(self@, app_id.0, len as nat) is Some,
            r is Some ==> r.unwrap()@ == spec_add_tx(self@, app_id.0, len as nat).unwrap(),
            r is Some ==> r.unwrap().wf(),
            r is Some ==> r.unwrap().spec_total() == sum_padded(self@) + spec_padded_len(
                len as nat,
            ),
    {
        let padded: u32 = match padded_len(len) {
            None => { return None },
            Some(p) => p,
        };
        proof {
            lemma_find_app(self@, app_id.0);
        }
        let ghost fpos = find_app(self@, app_id.0);
        let n: usize = self.entries.len();
        let mut idx: usize = 0;
        let mut found: bool = false;
        while idx < n && !found
            invariant
                n == self@.len(),
                idx <= n,
                !found ==> forall|k: int| 0 <= k < idx ==> (#[trigger] self@[k]).0 != app_id.0,
                found ==> idx < n && self@[idx as int].0 == app_id.0 && (forall|k: int|
                    0 <= k < idx ==> (#[trigger] self@[k]).0 != app_id.0),
            decreases n - idx, (if found { 0int } else { 1int }),
        {
            if self.entries[idx].0 == app_id.0 {
                found = true;
            } else {
                idx = idx + 1;
            }
        }
        proof {
            if found {
                assert(fpos == idx);
            } else {
                assert(fpos == -1);
            }
        }
        if found {
            let cur: u32 = self.entries[idx].1;
            let new_val: u32 = match cur.checked_add(padded) {
                None => { return None },
                Some(v) => v,
            };
            proof {
                lemma_sum_update(self@, idx as int, (app_id.0, new_val));
            }
            let new_total: u32 = match self.total_padded.checked_add(padded) {
                None => { return None },
                Some(t) => t,
            };
            let ghost target = self@.update(idx as int, (app_id.0, new_val));
            let mut out: Vec<(u32, u32)> = Vec::new();
            let mut k: usize = 0;
            while k < n
                invariant
                    n == self@.len(),
                    idx < n,
                    target == self@.update(idx as int, (app_id.0, new_val)),
                    k <= n,
                    out@ == target.subrange(0, k as int),
                decreases n - k,
            {
                if k == idx {
                    out.push((app_id.0, new_val));
                } else {
                    out.push(self.entries[k]);
                }
                proof {
                    assert(out@ =~= target.subrange(0, k + 1));
                }
                k = k + 1;
            }
            proof {
                assert(out@ =~= target);
                lemma_sum_update(self@, idx as int, (app_id.0, new_val));
                assert forall|i: int, j: int| 0 <= i < j < target.len() implies (
                #[trigger] target[i]).0 != (#[trigger] target[j]).0 by {
                    assert(target[i].0 == self@[i].0);
                    assert(target[j].0 == self@[j].0);
                }
            }
            Some(ExtrinsicsLen { entries: out, total_padded: new_total })
        } else {
            proof {
                lemma_sum_push(self@, (app_id.0, padded));
            }
            let new_total: u32 = match self.total_padded.checked_add(padded) {
                None => { return None },
                Some(t) => t,
            };
            let ghost target = self@.push((app_id.0, padded));
            let mut out: Vec<(u32, u32)> = Vec::new();
            let mut k: usize = 0;
            while k < n
                invariant
                    n == self@.len(),
                    k <= n,
                    out@ == self@.subrange(0, k as int),
                decreases n - k,
            {
                out.push(self.entries[k]);
                proof {
                    assert(out@ =~= self@.subrange(0, k + 1));
                }
                k = k + 1;
            }
            out.push((app_id.0, padded));
            proof {
                assert(self@.subrange(0, n as int) =~= self@);
                assert(out@ =~= target);
                lemma_sum_push(self@, (app_id.0, padded));
                assert forall|i: int, j: int| 0 <= i < j < target.len() implies (
                #[trigger] target[i]).0 != (#[trigger] target[j]).0 by {
                    if j < target.len() - 1 {
                        assert(target[i].0 == self@[i].0);
                        assert(target[j].0 == self@[j].0);
                    } else {
                        assert(target[i].0 == self@[i].0);
                        assert(target[j].0 == app_id.0);
                    }
                }
            }
            Some(ExtrinsicsLen { entries: out, total_padded: new_total })
        }
    }
}

impl Default for ExtrinsicsLen {
    /// Same as [`ExtrinsicsLen::new`]: nothing recorded yet.
    fn default() -> (r: Self)
        ensures
            r@ == Seq::<(u32, u32)>::empty(),
            r.spec_total() == 0,
            r.wf(),
    {
        ExtrinsicsLen::new()
    }
}

} // verus!
