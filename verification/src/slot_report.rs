//! The reports that a ledger tool prints of slots, entries, accounts and
//! programs.

use crate::identity::Pubkey;
use crate::text::{decimal, decimal_list, push_decimal, push_decimal_list, string_push};
use vstd::seq_lib::{to_multiset_build, to_multiset_remove};
use vstd::prelude::*;
use vstd::string::*;

verus! {

/// Summary of a range of slots.
#[derive(Debug)]
pub struct SlotInfo {
    pub total: usize,
    pub first: Option<u64>,
    pub last: Option<u64>,
    pub num_after_last_root: Option<usize>,
}

/// The slots and the rooted slots that a ledger holds.
#[derive(Debug)]
pub struct SlotBounds<'a> {
    pub all_slots: Option<&'a Vec<u64>>,
    pub slots: SlotInfo,
    pub roots: SlotInfo,
}

/// The bank hash of a slot.
#[derive(Debug)]
pub struct SlotBankHash {
    pub slot: u64,
    pub hash: String,
}

/// Summary of one entry of a block.
pub struct CliEntry {
    num_hashes: u64,
    hash: String,
    num_transactions: u64,
    starting_transaction_index: usize,
}

/// The entries of a slot.
pub struct CliEntries {
    pub entries: Vec<CliEntry>,
    pub slot: u64,
}

/// Totals over the accounts that a scan has seen.
#[derive(Debug, Copy, Clone)]
pub struct TotalAccountsStats {
    /// Total number of accounts
    pub num_accounts: usize,
    /// Total data size of all accounts
    pub data_len: usize,
    /// Total number of executable accounts
    pub num_executable_accounts: usize,
    /// Total data size of executable accounts
    pub executable_data_len: usize,
}

/// Where an entry's transactions stand among those of its block.
#[derive(Debug, Clone, Copy)]
pub struct EntrySpan {
    pub num_transactions: u64,
    pub starting_transaction_index: usize,
}

impl Default for SlotInfo {
    fn default() -> (info: SlotInfo)
        ensures
            info == (SlotInfo { total: 0, first: None, last: None, num_after_last_root: None }),
    {
        SlotInfo { total: 0, first: None, last: None, num_after_last_root: None }
    }
}

impl<'a> Default for SlotBounds<'a> {
    fn default() -> (bounds: SlotBounds<'a>)
        ensures
            bounds.all_slots.is_none(),
            bounds.slots == (SlotInfo { total: 0, first: None, last: None, num_after_last_root: None }),
            bounds.roots == (SlotInfo { total: 0, first: None, last: None, num_after_last_root: None }),
    {
        SlotBounds {
            all_slots: None,
            slots: SlotInfo { total: 0, first: None, last: None, num_after_last_root: None },
            roots: SlotInfo { total: 0, first: None, last: None, num_after_last_root: None },
        }
    }
}

impl Default for TotalAccountsStats {
    fn default() -> (stats: TotalAccountsStats)
        ensures
            stats == (TotalAccountsStats {
                num_accounts: 0,
                data_len: 0,
                num_executable_accounts: 0,
                executable_data_len: 0,
            }),
    {
        TotalAccountsStats {
            num_accounts: 0,
            data_len: 0,
            num_executable_accounts: 0,
            executable_data_len: 0,
        }
    }
}

/// The value an optional number stands for where a line needs one.
pub open spec fn or_zero(value: Option<u64>) -> nat {
    match value {
        Some(v) => v as nat,
        None => 0,
    }
}

impl<'a> SlotBounds<'a> {
    /// `prefix`, then the line, or lines, on the slots of a ledger that is
    /// not empty.
    pub open spec fn spec_slots_text(&self, prefix: Seq<char>) -> Seq<char> {
        let first = self.slots.first.unwrap();
        let last = self.slots.last.unwrap();
        if first != last {
            let range = prefix + "Ledger has data for "@ + decimal(self.slots.total as nat)
                + " slots "@ + decimal(first as nat) + " to "@ + decimal(last as nat) + "\n"@;
            match self.all_slots {
                Some(all) => range + "Non-empty slots: ["@ + decimal_list(all@) + "]\n"@,
                None => range,
            }
        } else {
            prefix + "Ledger has data for slot "@ + decimal(first as nat) + "\n"@
        }
    }

    /// `prefix`, then the lines on the rooted slots.
    pub open spec fn spec_roots_text(&self, prefix: Seq<char>) -> Seq<char> {
        if self.roots.total > 0 {
            prefix + "  with "@ + decimal(self.roots.total as nat) + " rooted slots from "@
                + decimal(or_zero(self.roots.first)) + " to "@ + decimal(or_zero(self.roots.last))
                + "\n"@ + "  and "@ + decimal(
                match self.roots.num_after_last_root {
                    Some(n) => n as nat,
                    None => 0,
                },
            ) + " slots past the last root\n"@
        } else {
            prefix + "  with no rooted slots\n"@
        }
    }

    /// The report, as lines of text.
    pub open spec fn spec_display(&self) -> Seq<char> {
        if self.slots.total > 0 {
            self.spec_roots_text(self.spec_slots_text(Seq::empty()))
        } else {
            Seq::empty() + "Ledger is empty\n"@
        }
    }

    fn push_slots_text(&self, out: &mut String)
        requires
            self.slots.first.is_some() && self.slots.last.is_some(),
        ensures
            final(out)@ == self.spec_slots_text(old(out)@),
    {
        let first = self.slots.first.unwrap();
        let last = self.slots.last.unwrap();
        if first != last {
            out.append("Ledger has data for ");
            push_decimal(out, self.slots.total as u64);
            out.append(" slots ");
            push_decimal(out, first);
            out.append(" to ");
            push_decimal(out, last);
            out.append("\n");
            match self.all_slots {
                Some(all) => {
                    out.append("Non-empty slots: [");
                    push_decimal_list(out, all);
                    out.append("]\n");
                },
                None => {},
            }
        } else {
            out.append("Ledger has data for slot ");
            push_decimal(out, first);
            out.append("\n");
        }
    }

    fn push_roots_text(&self, out: &mut String)
        ensures
            final(out)@ == self.spec_roots_text(old(out)@),
    {
        if self.roots.total > 0 {
            let first_rooted = match self.roots.first {
                Some(v) => v,
                None => 0,
            };
            let last_rooted = match self.roots.last {
                Some(v) => v,
                None => 0,
            };
            let num_after_last_root = match self.roots.num_after_last_root {
                Some(n) => n,
                None => 0,
            };
            out.append("  with ");
            push_decimal(out, self.roots.total as u64);
            out.append(" rooted slots from ");
            push_decimal(out, first_rooted);
            out.append(" to ");
            push_decimal(out, last_rooted);
            out.append("\n");
            out.append("  and ");
            push_decimal(out, num_after_last_root as u64);
            out.append(" slots past the last root\n");
        } else {
            out.append("  with no rooted slots\n");
        }
    }

    /// The report on the ledger's slots, as lines of text. A ledger that
    /// holds slots names its first and its last.
    pub fn display(&self) -> (text: String)
        requires
            self.slots.total > 0 ==> self.slots.first.is_some() && self.slots.last.is_some(),
        ensures
            text@ == self.spec_display(),
    {
        let mut out = String::new();
        if self.slots.total > 0 {
            self.push_slots_text(&mut out);
            self.push_roots_text(&mut out);
        } else {
            out.append("Ledger is empty\n");
        }
        out
    }
}

impl SlotBankHash {
    pub open spec fn spec_display(&self) -> Seq<char> {
        "Bank hash for slot "@ + decimal(self.slot as nat) + ": "@ + self.hash@ + "\n"@
    }

    /// The line that names the slot and its bank hash.
    pub fn display(&self) -> (text: String)
        ensures
            text@ == self.spec_display(),
    {
        let mut out = String::new();
        out.append("Bank hash for slot ");
        push_decimal(&mut out, self.slot);
        out.append(": ");
        out.append(self.hash.as_str());
        out.append("\n");
        assert(out@ =~= self.spec_display());
        out
    }
}

impl CliEntry {
    pub closed spec fn spec_num_hashes(&self) -> u64 {
        self.num_hashes
    }

    pub closed spec fn spec_hash(&self) -> Seq<char> {
        self.hash@
    }

    pub closed spec fn spec_num_transactions(&self) -> u64 {
        self.num_transactions
    }

    pub closed spec fn spec_starting_transaction_index(&self) -> usize {
        self.starting_transaction_index
    }

    pub fn new(
        num_hashes: u64,
        hash: String,
        num_transactions: u64,
        starting_transaction_index: usize,
    ) -> (entry: CliEntry)
        ensures
            entry.spec_num_hashes() == num_hashes,
            entry.spec_hash() == hash@,
            entry.spec_num_transactions() == num_transactions,
            entry.spec_starting_transaction_index() == starting_transaction_index,
    {
        CliEntry { num_hashes, hash, num_transactions, starting_transaction_index }
    }

    /// The line that describes the entry as the `i`-th of its block, after
    /// `prefix`.
    pub open spec fn spec_line(&self, i: usize, prefix: Seq<char>) -> Seq<char> {
        prefix + "Entry "@ + decimal(i as nat) + " - num_hashes: "@ + decimal(
            self.spec_num_hashes() as nat,
        ) + ", hash: "@ + self.spec_hash() + ", transactions: "@ + decimal(
            self.spec_num_transactions() as nat,
        ) + ", starting_transaction_index: "@ + decimal(
            self.spec_starting_transaction_index() as nat,
        ) + "\n"@
    }
}

/// Appends to `f` the line that describes `entry` as the `i`-th of its
/// block, after `prefix`.
pub fn writeln_entry(f: &mut String, i: usize, entry: &CliEntry, prefix: &str)
    ensures
        final(f)@ == old(f)@ + entry.spec_line(i, prefix@),
{
    f.append(prefix);
    f.append("Entry ");
    push_decimal(f, i as u64);
    f.append(" - num_hashes: ");
    push_decimal(f, entry.num_hashes);
    f.append(", hash: ");
    f.append(entry.hash.as_str());
    f.append(", transactions: ");
    push_decimal(f, entry.num_transactions);
    f.append(", starting_transaction_index: ");
    push_decimal(f, entry.starting_transaction_index as u64);
    f.append("\n");
    assert(f@ =~= old(f)@ + entry.spec_line(i, prefix@));
}

/// The lines of the first `n` entries, each after two spaces.
pub open spec fn entry_lines(entries: Seq<CliEntry>, n: nat) -> Seq<char>
    decreases n,
{
    if n == 0 {
        Seq::empty()
    } else {
        entry_lines(entries, (n - 1) as nat) + entries[n - 1].spec_line((n - 1) as usize, "  "@)
    }
}

impl CliEntries {
    pub open spec fn spec_display(&self) -> Seq<char> {
        "Slot "@ + decimal(self.slot as nat) + "\n"@ + entry_lines(
            self.entries@,
            self.entries@.len(),
        )
    }

    /// The slot's number, then one line for each entry.
    pub fn display(&self) -> (text: String)
        ensures
            text@ == self.spec_display(),
    {
        let mut out = String::new();
        out.append("Slot ");
        push_decimal(&mut out, self.slot);
        out.append("\n");
        let ghost head = out@;
        assert(head =~= "Slot "@ + decimal(self.slot as nat) + "\n"@);
        let mut i: usize = 0;
        assert(out@ =~= head + entry_lines(self.entries@, 0));
        while i < self.entries.len()
            invariant
                i <= self.entries@.len(),
                out@ == head + entry_lines(self.entries@, i as nat),
            decreases self.entries@.len() - i,
        {
            writeln_entry(&mut out, i, &self.entries[i], "  ");
            assert(out@ =~= head + entry_lines(self.entries@, (i + 1) as nat));
            i += 1;
        }
        out
    }
}

impl TotalAccountsStats {
    /// Counts one more account, of `data_len` bytes of data, executable or
    /// not.
    pub fn accumulate_account(&mut self, data_len: usize, executable: bool)
        requires
            old(self).num_accounts < usize::MAX,
            old(self).data_len + data_len <= usize::MAX,
            executable ==> old(self).num_executable_accounts < usize::MAX && old(
                self,
            ).executable_data_len + data_len <= usize::MAX,
        ensures
            final(self).num_accounts == old(self).num_accounts + 1,
            final(self).data_len == old(self).data_len + data_len,
            final(self).num_executable_accounts == old(self).num_executable_accounts + if executable {
                1int
            } else {
                0int
            },
            final(self).executable_data_len == old(self).executable_data_len + if executable {
                data_len as int
            } else {
                0int
            },
    {
        self.num_accounts += 1;
        self.data_len += data_len;
        if executable {
            self.num_executable_accounts += 1;
            self.executable_data_len += data_len;
        }
    }
}

/// Where the transactions of an entry end, as far as a `usize` can say.
pub open spec fn span_end(span: EntrySpan) -> int {
    if span.starting_transaction_index + span.num_transactions > usize::MAX {
        usize::MAX as int
    } else {
        span.starting_transaction_index + span.num_transactions
    }
}

/// Whether the transactions of an entry lie among the `num_transactions` of
/// its block.
pub open spec fn span_fits(span: EntrySpan, num_transactions: usize) -> bool {
    span.starting_transaction_index <= span_end(span) <= num_transactions
}

/// For each entry the range of its transactions among the
/// `num_transactions` of its block, or the index of the first entry whose
/// range does not lie among them.
pub fn entry_transaction_ranges(
    num_transactions: usize,
    entries: &Vec<EntrySpan>,
) -> (result: Result<
    Vec<(usize, usize)>,
    usize,
>)
    ensures
        match result {
            Ok(ranges) => {
                &&& ranges@.len() == entries@.len()
                &&& forall|i: int|
                    0 <= i < entries@.len() ==> span_fits(#[trigger] entries@[i], num_transactions)
                        && ranges@[i] == (
                        entries@[i].starting_transaction_index,
                        span_end(entries@[i]) as usize,
                    )
            },
            Err(bad) => {
                &&& bad < entries@.len()
                &&& !span_fits(entries@[bad as int], num_transactions)
                &&& forall|i: int|
                    0 <= i < bad ==> span_fits(#[trigger] entries@[i], num_transactions)
            },
        },
{
    let mut ranges: Vec<(usize, usize)> = Vec::new();
    let mut i: usize = 0;
    while i < entries.len()
        invariant
            i <= entries@.len(),
            ranges@.len() == i,
            forall|j: int|
                0 <= j < i ==> span_fits(#[trigger] entries@[j], num_transactions) && ranges@[j]
                    == (entries@[j].starting_transaction_index, span_end(entries@[j]) as usize),
        decreases entries@.len() - i,
    {
        let span = entries[i];
        let start = span.starting_transaction_index;
        let count: usize = if span.num_transactions > usize::MAX as u64 {
            usize::MAX
        } else {
            span.num_transactions as usize
        };
        let end: usize = if count > usize::MAX - start {
            usize::MAX
        } else {
            start + count
        };
        if end > num_transactions {
            return Err(i);
        }
        ranges.push((start, end));
        i += 1;
    }
    Ok(ranges)
}

/// The number of transactions in the first `n` entries.
pub open spec fn count_sum(counts: Seq<usize>, n: nat) -> nat
    decreases n,
{
    if n == 0 {
        0
    } else {
        count_sum(counts, (n - 1) as nat) + counts[n - 1] as nat
    }
}

pub proof fn lemma_count_sum_monotone(counts: Seq<usize>, a: nat, b: nat)
    requires
        a <= b,
    ensures
        count_sum(counts, a) <= count_sum(counts, b),
    decreases b,
{
    if a < b {
        lemma_count_sum_monotone(counts, a, (b - 1) as nat);
    }
}

/// Where the transactions of each entry stand in their block, when the
/// entries hold `counts` transactions in turn: each entry starts where the
/// one before it ends.
pub fn entry_spans(counts: &Vec<usize>) -> (spans: Vec<EntrySpan>)
    requires
        count_sum(counts@, counts@.len()) <= usize::MAX,
    ensures
        spans@.len() == counts@.len(),
        forall|i: int|
            0 <= i < counts@.len() ==> #[trigger] spans@[i] == (EntrySpan {
                num_transactions: counts@[i] as u64,
                starting_transaction_index: count_sum(counts@, i as nat) as usize,
            }),
{
    let mut spans: Vec<EntrySpan> = Vec::new();
    let mut start: usize = 0;
    let mut i: usize = 0;
    while i < counts.len()
        invariant
            i <= counts@.len(),
            spans@.len() == i,
            start == count_sum(counts@, i as nat),
            count_sum(counts@, counts@.len()) <= usize::MAX,
            forall|j: int|
                0 <= j < i ==> #[trigger] spans@[j] == (EntrySpan {
                    num_transactions: counts@[j] as u64,
                    starting_transaction_index: count_sum(counts@, j as nat) as usize,
                }),
        decreases counts@.len() - i,
    {
        proof {
            lemma_count_sum_monotone(counts@, (i + 1) as nat, counts@.len());
        }
        spans.push(EntrySpan { num_transactions: counts[i] as u64, starting_transaction_index: start });
        start = start + counts[i];
        i += 1;
    }
    spans
}

/// What follows the number of a slot in its heading: whether it is a root,
/// or else whether it is dead.
pub fn slot_status(is_root: bool, is_dead: bool) -> (suffix: &'static str)
    ensures
        suffix@ == if is_root {
            " (root)"@
        } else if is_dead {
            " (dead)"@
        } else {
            ""@
        },
{
    if is_root {
        " (root)"
    } else if is_dead {
        " (dead)"
    } else {
        ""
    }
}

/// A slot of the ledger, and whether it is a root.
#[derive(Debug, Clone, Copy)]
pub struct SlotEntry {
    pub slot: u64,
    pub is_root: bool,
}

/// What a walk over the first `n` slots puts out, and whether it has ended.
pub struct Walk {
    pub slots: Seq<u64>,
    pub ended: bool,
}

/// The walk over the first `n` of `slots`: where only roots are wanted, a
/// slot that is none is passed over; the walk ends at the first slot past
/// `ending_slot`, or once `num_slots` slots were put out.
pub open spec fn walk(
    slots: Seq<SlotEntry>,
    ending_slot: u64,
    num_slots: u64,
    only_rooted: bool,
    n: nat,
) -> Walk
    decreases n,
{
    if n == 0 {
        Walk { slots: Seq::empty(), ended: false }
    } else {
        let prev = walk(slots, ending_slot, num_slots, only_rooted, (n - 1) as nat);
        let entry = slots[n - 1];
        if prev.ended || (only_rooted && !entry.is_root) {
            prev
        } else if entry.slot > ending_slot {
            Walk { ended: true, ..prev }
        } else {
            Walk { slots: prev.slots.push(entry.slot), ended: prev.slots.len() + 1 >= num_slots }
        }
    }
}

/// The slots to put out of those the ledger holds from the starting slot
/// on: see `walk`. Without `num_slots` there is no limit to their number.
pub fn slots_to_output(
    slots: &Vec<SlotEntry>,
    ending_slot: u64,
    num_slots: Option<u64>,
    only_rooted: bool,
) -> (out: Vec<
    u64,
>)
    ensures
        out@ == walk(
            slots@,
            ending_slot,
            match num_slots {
                Some(n) => n,
                None => u64::MAX,
            },
            only_rooted,
            slots@.len(),
        ).slots,
{
    let limit = match num_slots {
        Some(n) => n,
        None => u64::MAX,
    };
    let mut out: Vec<u64> = Vec::new();
    let mut ended = false;
    let mut i: usize = 0;
    while i < slots.len()
        invariant
            i <= slots@.len(),
            out@ == walk(slots@, ending_slot, limit, only_rooted, i as nat).slots,
            ended == walk(slots@, ending_slot, limit, only_rooted, i as nat).ended,
            out@.len() <= i,
        decreases slots@.len() - i,
    {
        let entry = slots[i];
        if !ended && !(only_rooted && !entry.is_root) {
            if entry.slot > ending_slot {
                ended = true;
            } else {
                out.push(entry.slot);
                ended = out.len() as u64 >= limit;
            }
        }
        i += 1;
    }
    out
}

/// How often a program was called.
#[derive(Debug, Clone, Copy)]
pub struct ProgramCount {
    pub program_id: Pubkey,
    pub count: u64,
}

/// Whether the counts fall, or stay, from each place to the next.
pub open spec fn counts_descend(ids: Seq<ProgramCount>) -> bool {
    forall|i: int, j: int|
        #![trigger ids[i], ids[j]]
        0 <= i < j < ids.len() ==> ids[i].count >= ids[j].count
}

/// The programs in the order of their counts, the most called first.
pub fn sorted_program_ids(ids: &Vec<ProgramCount>) -> (sorted: Vec<ProgramCount>)
    ensures
        counts_descend(sorted@),
        sorted@.to_multiset() == ids@.to_multiset(),
{
    let mut sorted: Vec<ProgramCount> = Vec::new();
    let mut n: usize = 0;
    assert(ids@.take(0) =~= Seq::<ProgramCount>::empty());
    while n < ids.len()
        invariant
            n <= ids@.len(),
            counts_descend(sorted@),
            sorted@.len() == n,
            sorted@.to_multiset() == ids@.take(n as int).to_multiset(),
        decreases ids@.len() - n,
    {
        let item = ids[n];
        let mut at: usize = 0;
        while at < sorted.len() && sorted[at].count >= item.count
            invariant
                at <= sorted@.len(),
                forall|t: int| 0 <= t < at ==> (#[trigger] sorted@[t]).count >= item.count,
            decreases sorted@.len() - at,
        {
            at += 1;
        }
        let ghost before = sorted@;
        sorted.insert(at, item);
        proof {
            let after = sorted@;
            assert(after.remove(at as int) =~= before);
            to_multiset_remove(after, at as int);
            assert(after.to_multiset() =~= before.to_multiset().insert(item)) by {
                assert(after.to_multiset().count(item) > 0) by {
                    after.to_multiset_ensures();
                    assert(after[at as int] == item);
                    assert(after.contains(item));
                }
            }
            assert(ids@.take(n + 1) =~= ids@.take(n as int).push(item));
            to_multiset_build(ids@.take(n as int), item);
            assert forall|i: int, j: int|
                #![trigger after[i], after[j]]
                0 <= i < j < after.len() implies after[i].count >= after[j].count by {
                if j < at {
                    assert(after[i] == before[i] && after[j] == before[j]);
                } else if j == at {
                    assert(after[i] == before[i]);
                } else if i < at {
                    assert(after[i] == before[i] && after[j] == before[j - 1]);
                } else if i == at {
                    assert(after[j] == before[j - 1]);
                } else {
                    assert(after[i] == before[i - 1] && after[j] == before[j - 1]);
                }
            }
        }
        n += 1;
    }
    assert(ids@.take(ids@.len() as int) =~= ids@);
    sorted
}

/// `count` blanks.
pub open spec fn blanks(count: nat) -> Seq<char> {
    Seq::new(count, |i: int| ' ')
}

/// The line that tells how often a program was called: the program's name,
/// filled up with blanks to 44 characters, a colon, and the count.
pub open spec fn program_line(name: Seq<char>, count: u64) -> Seq<char> {
    name + blanks(
        if name.len() < 44 {
            (44 - name.len()) as nat
        } else {
            0
        },
    ) + ": "@ + decimal(count as nat)
}

pub fn program_id_line(name: &str, count: u64) -> (line: String)
    ensures
        line@ == program_line(name@, count),
{
    let mut out = String::new();
    out.append(name);
    let len = name.unicode_len();
    let pad: usize = if len < 44 {
        44 - len
    } else {
        0
    };
    let ghost head = out@;
    let mut i: usize = 0;
    assert(head + blanks(0) =~= head);
    while i < pad
        invariant
            i <= pad,
            out@ == head + blanks(i as nat),
        decreases pad - i,
    {
        string_push(&mut out, ' ');
        assert(head + blanks((i + 1) as nat) =~= (head + blanks(i as nat)).push(' '));
        i += 1;
    }
    out.append(": ");
    push_decimal(&mut out, count);
    assert(head =~= name@);
    out
}

} // verus!
