//! Bounded sliding window of per-channel alarm samples, with change
//! detection and the compact digit-per-channel wire encoding.

use vstd::prelude::*;
use crate::constants::{ALARMS_CHANNELS_AMOUNT, ALARMS_MESSAGE_STRING_LENGTH, ALARMS_STACK_DEPTH};

verus! {

broadcast use vstd::array::group_array_axioms;

/// Accumulator for channel `c` over the first `r` rows of the window:
/// row `i` contributes bit `i`, oldest row in bit 0.
pub open spec fn spec_col_acc(w: Seq<Seq<bool>>, c: int, r: int) -> u8
    decreases r,
{
    if r <= 0 {
        0u8
    } else if w[r - 1][c] {
        spec_col_acc(w, c, r - 1) | (1u8 << ((r - 1) as u8))
    } else {
        spec_col_acc(w, c, r - 1)
    }
}

/// The code character for one channel: ASCII `'0'` plus the accumulator.
pub open spec fn spec_code_char(v: u8) -> char {
    ((v + 48) as u8) as char
}

/// The compact code of a window: one character per channel.
pub open spec fn spec_export_code(w: Seq<Seq<bool>>) -> Seq<char> {
    Seq::new(
        ALARMS_MESSAGE_STRING_LENGTH as nat,
        |c: int| spec_code_char(spec_col_acc(w, c, w.len() as int)),
    )
}

/// The low byte of a character, as Rust's truncating cast computes it.
pub open spec fn spec_char_low_byte(c: char) -> u8 {
    ((c as u32) % 256) as u8
}

/// The digit value a code character decodes to: its low byte minus ASCII
/// `'0'`, saturating at zero.
pub open spec fn spec_char_digit(c: char) -> u8 {
    let b = spec_char_low_byte(c);
    if b < 48 {
        0u8
    } else {
        (b - 48) as u8
    }
}

/// Bit `r` of the digit encoded by code character `c`.
pub open spec fn spec_code_bit(c: char, r: int) -> bool {
    (spec_char_digit(c) >> (r as u8)) & 1 != 0
}

/// The full synthetic window a compact code decodes to: one row per bit
/// position, oldest row from bit 0.
pub open spec fn spec_import_window(code: Seq<char>) -> Seq<Seq<bool>> {
    Seq::new(
        ALARMS_STACK_DEPTH as nat,
        |r: int|
            Seq::new(ALARMS_CHANNELS_AMOUNT as nat, |c: int| spec_code_bit(code[c], r)),
    )
}

/// A row with every channel inactive.
pub open spec fn spec_all_false_row() -> Seq<bool> {
    Seq::new(ALARMS_CHANNELS_AMOUNT as nat, |c: int| false)
}

/// What exporting leaves behind: only the most recent row as the new
/// baseline, or an all-inactive baseline if nothing was ever pushed.
pub open spec fn spec_export_baseline(w: Seq<Seq<bool>>) -> Seq<Seq<bool>> {
    if w.len() > 0 {
        seq![w.last()]
    } else {
        seq![spec_all_false_row()]
    }
}

/// What one push does to the window, seen as a sequence of rows (oldest
/// first): append while there is room, otherwise evict exactly the oldest
/// row and append.
pub open spec fn spec_window_push(w: Seq<Seq<bool>>, row: Seq<bool>) -> Seq<Seq<bool>> {
    if w.len() < ALARMS_STACK_DEPTH {
        w.push(row)
    } else {
        w.skip(1).push(row)
    }
}

/// A window has changed when some row in it differs from the oldest row;
/// a window with fewer than two rows never counts as changed.
pub open spec fn spec_window_changed(w: Seq<Seq<bool>>) -> bool {
    exists|r: int| 0 <= r < w.len() && #[trigger] w[r] != w[0]
}

/// Ring buffer of the most recent channel snapshots, oldest in row 0.
pub struct AlarmStack {
    stack: [[bool; ALARMS_CHANNELS_AMOUNT]; ALARMS_STACK_DEPTH],
    counter: usize,
}

impl AlarmStack {
    /// The rows currently in the window, oldest first.
    pub closed spec fn window(self) -> Seq<Seq<bool>> {
        Seq::new(self.counter as nat, |r: int| self.stack[r]@)
    }

    /// All physical rows of the backing store, whether or not they are in
    /// the window; row views always have one entry per channel.
    pub closed spec fn full_rows(self) -> Seq<Seq<bool>> {
        Seq::new(ALARMS_STACK_DEPTH as nat, |r: int| self.stack[r]@)
    }

    pub closed spec fn wf(self) -> bool {
        self.counter <= ALARMS_STACK_DEPTH
    }

    pub fn new() -> (r: Self)
        ensures
            r.wf(),
            r.window() =~= Seq::<Seq<bool>>::empty(),
    {
        Self {
            stack: [[false; ALARMS_CHANNELS_AMOUNT]; ALARMS_STACK_DEPTH],
            counter: 0,
        }
    }

    /// Append a snapshot; once the window is full, each push evicts exactly
    /// the oldest row (a pure positional shift), never a value-dependent one.
    pub fn push(&mut self, alarms: &[bool; ALARMS_CHANNELS_AMOUNT])
        requires
            old(self).wf(),
        ensures
            final(self).wf(),
            final(self).window() =~= spec_window_push(old(self).window(), alarms@),
    {
        if self.counter < ALARMS_STACK_DEPTH {
            self.stack[self.counter] = *alarms;
            self.counter = self.counter + 1;
        } else {
            let ghost start = self.stack;
            let mut i: usize = 0;
            while i < ALARMS_STACK_DEPTH - 1
                invariant
                    i <= ALARMS_STACK_DEPTH - 1,
                    self.counter == old(self).counter,
                    forall|j: int| 0 <= j < i ==> self.stack[j] == start[j + 1],
                    forall|j: int| i <= j < ALARMS_STACK_DEPTH ==> self.stack[j] == start[j],
                decreases ALARMS_STACK_DEPTH - 1 - i,
            {
                self.stack[i] = self.stack[i + 1];
                i = i + 1;
            }
            self.stack[ALARMS_STACK_DEPTH - 1] = *alarms;
        }
    }

    /// True exactly when some row of the window differs, on some channel,
    /// from the oldest row.
    pub fn has_changes(&self) -> (r: bool)
        requires
            self.wf(),
        ensures
            r == spec_window_changed(self.window()),
    {
        let mut row: usize = 1;
        while row < self.counter
            invariant
                1 <= row,
                self.wf(),
                forall|j: int| 0 <= j < row && j < self.counter ==> #[trigger] self.window()[j] == self.window()[0],
            decreases self.counter - row,
        {
            let mut col: usize = 0;
            while col < ALARMS_CHANNELS_AMOUNT
                invariant
                    row < self.counter,
                    self.wf(),
                    col <= ALARMS_CHANNELS_AMOUNT,
                    forall|c: int| 0 <= c < col ==> self.window()[row as int][c] == self.window()[0][c],
                decreases ALARMS_CHANNELS_AMOUNT - col,
            {
                if self.stack[row][col] != self.stack[0][col] {
                    assert(self.window()[row as int] != self.window()[0]);
                    return true;
                }
                col = col + 1;
            }
            assert(self.window()[row as int] =~= self.window()[0]);
            row = row + 1;
        }
        false
    }

    /// Encode the window into the compact code and collapse it to its most
    /// recent row, which becomes the baseline for future change detection.
    pub fn export_bits(&mut self) -> (r: [char; ALARMS_MESSAGE_STRING_LENGTH])
        requires
            old(self).wf(),
        ensures
            final(self).wf(),
            r@ =~= spec_export_code(old(self).window()),
            final(self).window() =~~= spec_export_baseline(old(self).window()),
    {
        let ghost w = self.window();
        let mut result: [char; ALARMS_MESSAGE_STRING_LENGTH] = ['0'; ALARMS_MESSAGE_STRING_LENGTH];
        let mut col: usize = 0;
        while col < ALARMS_CHANNELS_AMOUNT
            invariant
                self == old(self),
                self.wf(),
                w == self.window(),
                col <= ALARMS_CHANNELS_AMOUNT,
                forall|c: int| 0 <= c < col ==> #[trigger] result[c] == spec_export_code(w)[c],
            decreases ALARMS_CHANNELS_AMOUNT - col,
        {
            let mut acc: u8 = 0;
            let mut row: usize = 0;
            while row < self.counter
                invariant
                    self == old(self),
                    self.wf(),
                    w == self.window(),
                    col < ALARMS_CHANNELS_AMOUNT,
                    row <= self.counter,
                    acc == spec_col_acc(w, col as int, row as int),
                    acc <= 7,
                decreases self.counter - row,
            {
                if self.stack[row][col] {
                    let ghost acc0 = acc;
                    let shift: u8 = row as u8;
                    acc = acc | (1u8 << shift);
                    assert(acc <= 7) by (bit_vector)
                        requires
                            acc == acc0 | (1u8 << shift),
                            acc0 <= 7,
                            shift < 3,
                    ;
                }
                row = row + 1;
            }
            result[col] = (acc + 48) as char;
            assert(result[col as int] == spec_export_code(w)[col as int]);
            col = col + 1;
        }
        if self.counter == 0 {
            self.stack[0] = [false; ALARMS_CHANNELS_AMOUNT];
        } else {
            self.stack[0] = self.stack[self.counter - 1];
        }
        self.counter = 1;
        assert(self.window() =~~= spec_export_baseline(w));
        result
    }

    /// Decode a compact code into a full synthetic window of
    /// `ALARMS_STACK_DEPTH` rows, most-significant row last.
    pub fn import_bits(&mut self, bits: [char; ALARMS_MESSAGE_STRING_LENGTH])
        ensures
            final(self).wf(),
            final(self).window() =~~= spec_import_window(bits@),
            final(self).full_rows() =~~= spec_import_window(bits@),
    {
        let mut col: usize = 0;
        while col < ALARMS_CHANNELS_AMOUNT
            invariant
                col <= ALARMS_CHANNELS_AMOUNT,
                forall|r: int, c: int|
                    0 <= r < ALARMS_STACK_DEPTH && 0 <= c < col
                        ==> #[trigger] self.stack[r]@[c] == spec_code_bit(bits@[c], r),
            decreases ALARMS_CHANNELS_AMOUNT - col,
        {
            let digit = char_digit(bits[col]);
            let mut row: usize = 0;
            while row < ALARMS_STACK_DEPTH
                invariant
                    col < ALARMS_CHANNELS_AMOUNT,
                    row <= ALARMS_STACK_DEPTH,
                    digit == spec_char_digit(bits@[col as int]),
                    forall|r: int, c: int|
                        0 <= r < ALARMS_STACK_DEPTH && 0 <= c < col
                            ==> #[trigger] self.stack[r]@[c] == spec_code_bit(bits@[c], r),
                    forall|r: int|
                        0 <= r < row
                            ==> #[trigger] self.stack[r]@[col as int]
                                == spec_code_bit(bits@[col as int], r),
                decreases ALARMS_STACK_DEPTH - row,
            {
                let bit = (digit >> row) & 1 != 0;
                let mut updated = self.stack[row];
                updated[col] = bit;
                self.stack[row] = updated;
                row = row + 1;
            }
            col = col + 1;
        }
        self.counter = ALARMS_STACK_DEPTH;
        assert(self.window() =~~= spec_import_window(bits@));
        assert(self.full_rows() =~~= spec_import_window(bits@));
    }

    /// The raw rows of the backing store; after `import_bits` these are the
    /// decoded rows in temporal order, for replay onto the outputs.
    pub fn get_stack_view(&self) -> (r: [[bool; ALARMS_CHANNELS_AMOUNT]; ALARMS_STACK_DEPTH])
        ensures
            r.deep_view() =~~= self.full_rows(),
    {
        let r = self.stack;
        proof {
            assert forall|i: int| 0 <= i < ALARMS_STACK_DEPTH implies r.deep_view()[i]
                =~= self.full_rows()[i] by {
            }
        }
        r
    }
}

impl Default for AlarmStack {
    fn default() -> (r: Self)
        ensures
            r.wf(),
            r.window() =~= Seq::<Seq<bool>>::empty(),
    {
        Self::new()
    }
}

/// Interface of the alarm-history tracker, as the reporting code consumes
/// it; `AlarmStack` is its one implementation here.
pub trait AlarmTracker {
    /// The rows currently in the window, oldest first.
    spec fn history(&self) -> Seq<Seq<bool>>;

    /// Structural well-formedness of the tracker.
    spec fn inv(&self) -> bool;

    fn push(&mut self, alarms: &[bool; ALARMS_CHANNELS_AMOUNT])
        requires
            old(self).inv(),
        ensures
            final(self).inv(),
            final(self).history() =~= spec_window_push(old(self).history(), alarms@),
    ;

    fn has_changes(&self) -> (r: bool)
        requires
            self.inv(),
        ensures
            r == spec_window_changed(self.history()),
    ;

    fn export_bits(&mut self) -> (r: [char; ALARMS_MESSAGE_STRING_LENGTH])
        requires
            old(self).inv(),
        ensures
            final(self).inv(),
            r@ =~= spec_export_code(old(self).history()),
            final(self).history() =~~= spec_export_baseline(old(self).history()),
    ;

    fn import_bits(&mut self, bits: [char; ALARMS_MESSAGE_STRING_LENGTH])
        requires
            old(self).inv(),
        ensures
            final(self).inv(),
            final(self).history() =~~= spec_import_window(bits@),
    ;
}

impl AlarmTracker for AlarmStack {
    open spec fn history(&self) -> Seq<Seq<bool>> {
        self.window()
    }

    open spec fn inv(&self) -> bool {
        self.wf()
    }

    fn push(&mut self, alarms: &[bool; ALARMS_CHANNELS_AMOUNT]) {
        AlarmStack::push(self, alarms)
    }

    fn has_changes(&self) -> (r: bool) {
        AlarmStack::has_changes(self)
    }

    fn export_bits(&mut self) -> (r: [char; ALARMS_MESSAGE_STRING_LENGTH]) {
        AlarmStack::export_bits(self)
    }

    fn import_bits(&mut self, bits: [char; ALARMS_MESSAGE_STRING_LENGTH]) {
        AlarmStack::import_bits(self, bits)
    }
}

/// The digit value of a code character: its low byte minus ASCII `'0'`,
/// saturating at zero.
fn char_digit(c: char) -> (r: u8)
    ensures
        r == spec_char_digit(c),
{
    let code: u32 = c as u32;
    let b: u8 = (code % 256) as u8;
    if b < 48 {
        0
    } else {
        b - 48
    }
}

/// A window after any run of pushes, starting from `w`.
pub open spec fn spec_push_all(w: Seq<Seq<bool>>, xs: Seq<Seq<bool>>) -> Seq<Seq<bool>>
    decreases xs.len(),
{
    if xs.len() == 0 {
        w
    } else {
        spec_push_all(spec_window_push(w, xs.first()), xs.drop_first())
    }
}

/// How many rows a run of pushes evicts in total.
pub open spec fn spec_evicted(w: Seq<Seq<bool>>, xs: Seq<Seq<bool>>) -> int {
    if w.len() + xs.len() <= ALARMS_STACK_DEPTH {
        0
    } else {
        w.len() + xs.len() - ALARMS_STACK_DEPTH
    }
}

/// Law: after any run of pushes the window holds exactly the most recent
/// `ALARMS_STACK_DEPTH` of the rows ever present, in order.
pub proof fn lemma_push_all_window(w: Seq<Seq<bool>>, xs: Seq<Seq<bool>>)
    requires
        w.len() <= ALARMS_STACK_DEPTH,
    ensures
        spec_push_all(w, xs) =~= (w + xs).skip(spec_evicted(w, xs)),
    decreases xs.len(),
{
    if xs.len() == 0 {
        assert(spec_push_all(w, xs) =~= (w + xs).skip(0));
    } else {
        let w1 = spec_window_push(w, xs.first());
        let rest = xs.drop_first();
        lemma_push_all_window(w1, rest);
        if w.len() < ALARMS_STACK_DEPTH {
            assert(w1 + rest =~= w + xs);
            assert(spec_evicted(w1, rest) == spec_evicted(w, xs));
        } else {
            assert(w1 + rest =~= (w + xs).skip(1));
            assert((w + xs).skip(1).skip(spec_evicted(w1, rest)) =~= (w + xs).skip(
                1 + spec_evicted(w1, rest),
            ));
            assert(1 + spec_evicted(w1, rest) == spec_evicted(w, xs));
        }
    }
}

/// Law: pushing at least `ALARMS_STACK_DEPTH` snapshots leaves a window
/// that holds exactly the last `ALARMS_STACK_DEPTH` pushed snapshots in
/// push order, whatever the snapshot values and the starting window.
pub proof fn lemma_fifo_eviction(w: Seq<Seq<bool>>, xs: Seq<Seq<bool>>)
    requires
        w.len() <= ALARMS_STACK_DEPTH,
        xs.len() >= ALARMS_STACK_DEPTH,
    ensures
        spec_push_all(w, xs) =~= xs.skip(xs.len() - ALARMS_STACK_DEPTH),
{
    lemma_push_all_window(w, xs);
    assert((w + xs).skip(spec_evicted(w, xs)) =~= xs.skip(xs.len() - ALARMS_STACK_DEPTH));
}

/// Law: a window collapsed by an export never reports a change until
/// something more is pushed.
pub proof fn lemma_no_change_after_export(w: Seq<Seq<bool>>)
    ensures
        !spec_window_changed(spec_export_baseline(w)),
{
}

/// Law: after an export leaves baseline `b`, and while the baseline has
/// not yet been evicted (at most `ALARMS_STACK_DEPTH - 1` pushes), the
/// window reports a change exactly when some pushed snapshot differs from
/// the baseline.
pub proof fn lemma_change_detection(b: Seq<bool>, xs: Seq<Seq<bool>>)
    requires
        xs.len() <= ALARMS_STACK_DEPTH - 1,
    ensures
        spec_window_changed(spec_push_all(seq![b], xs)) <==> (exists|i: int|
            0 <= i < xs.len() && #[trigger] xs[i] != b),
{
    lemma_push_all_window(seq![b], xs);
    let win = seq![b] + xs;
    assert(spec_push_all(seq![b], xs) =~= win);
    assert(win[0] == b);
    if spec_window_changed(win) {
        let r = choose|r: int| 0 <= r < win.len() && #[trigger] win[r] != win[0];
        assert(xs[r - 1] != b);
    }
    if exists|i: int| 0 <= i < xs.len() && #[trigger] xs[i] != b {
        let i = choose|i: int| 0 <= i < xs.len() && #[trigger] xs[i] != b;
        assert(win[i + 1] != win[0]);
    }
}

/// The accumulator over the first `n` rows uses only the low `n` bits.
proof fn lemma_acc_bound(w: Seq<Seq<bool>>, c: int, n: int)
    requires
        0 <= n <= ALARMS_STACK_DEPTH,
    ensures
        spec_col_acc(w, c, n) < (1u8 << (n as u8)),
    decreases n,
{
    if n == 0 {
        assert(0u8 < (1u8 << 0u8)) by (bit_vector);
    } else {
        lemma_acc_bound(w, c, n - 1);
        let a = spec_col_acc(w, c, n - 1);
        let m: u8 = (n - 1) as u8;
        if w[n - 1][c] {
            assert((a | (1u8 << m)) < (1u8 << ((m + 1) as u8))) by (bit_vector)
                requires
                    a < (1u8 << m),
                    m <= 2,
            ;
        } else {
            assert(a < (1u8 << ((m + 1) as u8))) by (bit_vector)
                requires
                    a < (1u8 << m),
                    m <= 2,
            ;
        }
    }
}

/// Bit `r` of the accumulator over the first `n` rows is exactly the
/// channel's sample in row `r`, for rows the accumulator covers.
proof fn lemma_acc_bit(w: Seq<Seq<bool>>, c: int, n: int, r: int)
    requires
        0 <= r < ALARMS_STACK_DEPTH,
        0 <= n <= ALARMS_STACK_DEPTH,
    ensures
        ((spec_col_acc(w, c, n) >> (r as u8)) & 1 != 0) == (r < n && w[r][c]),
    decreases n,
{
    let rr: u8 = r as u8;
    if r >= n {
        lemma_acc_bound(w, c, n);
        let a = spec_col_acc(w, c, n);
        let nn: u8 = n as u8;
        assert((a >> rr) & 1 == 0) by (bit_vector)
            requires
                a < (1u8 << nn),
                nn <= rr,
                rr <= 2,
        ;
    } else {
        lemma_acc_bit(w, c, n - 1, r);
        lemma_acc_bound(w, c, n - 1);
        let a = spec_col_acc(w, c, n - 1);
        let m: u8 = (n - 1) as u8;
        if w[n - 1][c] {
            if r == n - 1 {
                assert(((a | (1u8 << m)) >> m) & 1 != 0) by (bit_vector)
                    requires
                        a < (1u8 << m),
                        m <= 2,
                ;
            } else {
                assert(((a | (1u8 << m)) >> rr) & 1 == (a >> rr) & 1) by (bit_vector)
                    requires
                        rr < m,
                        m <= 2,
                ;
            }
        } else {
            if r == n - 1 {
                assert((a >> m) & 1 == 0) by (bit_vector)
                    requires
                        a < (1u8 << m),
                        m <= 2,
                ;
            }
        }
    }
}

/// Decoding recovers the digit a code character was built from.
proof fn lemma_digit_of_code_char(v: u8)
    requires
        v <= 7,
    ensures
        spec_char_digit(spec_code_char(v)) == v,
{
}

/// Law: decoding the compact code of a full window restores the window,
/// row by row and channel by channel.
pub proof fn lemma_code_round_trip(w: Seq<Seq<bool>>)
    requires
        w.len() == ALARMS_STACK_DEPTH,
        forall|r: int| 0 <= r < w.len() ==> (#[trigger] w[r]).len() == ALARMS_CHANNELS_AMOUNT,
    ensures
        spec_import_window(spec_export_code(w)) =~~= w,
{
    let code = spec_export_code(w);
    assert forall|r: int, c: int|
        0 <= r < ALARMS_STACK_DEPTH && 0 <= c < ALARMS_CHANNELS_AMOUNT implies spec_import_window(
        code,
    )[r][c] == w[r][c] by {
        let a = spec_col_acc(w, c, ALARMS_STACK_DEPTH as int);
        lemma_acc_bound(w, c, ALARMS_STACK_DEPTH as int);
        assert(a <= 7) by (bit_vector)
            requires
                a < (1u8 << 3u8),
        ;
        lemma_digit_of_code_char(a);
        lemma_acc_bit(w, c, ALARMS_STACK_DEPTH as int, r);
        assert(spec_code_bit(code[c], r) == w[r][c]);
    }
}

} // verus!
