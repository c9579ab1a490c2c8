//! Tunnel backends apply rendered WireGuard configuration to the operating
//! system. This module holds what they decide: the trait a platform
//! implements, the `wg-quick` backend's bring-up-then-sync sequence, and the
//! parser of `wg show <iface> transfer` output.

use vstd::prelude::*;
use crate::text::{
    chars_of, parse_u64_chars, parse_u64_text, pieces_view, push_all, split_char, split_on,
    string_from_chars, trim_bounds, trim_ws,
};

verus! {

/// Applies WireGuard configuration to an operating-system interface.
pub trait TunnelBackend {
    /// Whether this backend, going from this state to state `after`, applied
    /// the wg-quick text `quick` and the setconf text `sync`, with `ok` for
    /// whether it succeeded. A backend verified here states it; by default it
    /// is left open.
    open spec fn applied(&self, after: &Self, quick: Seq<char>, sync: Seq<char>, ok: bool) -> bool {
        true
    }

    /// `quick_config` is wg-quick format (used to bring the interface up);
    /// `sync_config` is `wg setconf` format (used to update it in place).
    fn apply(&mut self, quick_config: &str, sync_config: &str) -> (r: Result<(), anyhow::Error>)
        ensures
            old(self).applied(final(self), quick_config@, sync_config@, r is Ok),
    ;

    /// Whether `r` is what this backend reports from `transfer` when it goes
    /// from this state to state `after`. A backend verified here states it;
    /// by default it is left open.
    open spec fn transfer_reported(&self, after: &Self, r: Option<(u64, u64)>) -> bool {
        true
    }

    /// Cumulative `(rx_bytes, tx_bytes)` of the interface, when known.
    fn transfer(&mut self) -> (r: Option<(u64, u64)>)
        ensures
            old(self).transfer_reported(final(self), r),
    ;
}

/// Runs external commands, so that a backend that shells out can be exercised
/// without touching the system.
pub trait CommandRunner {
    fn run(&mut self, program: &str, args: &[&str]) -> Result<(), anyhow::Error>;
}

/// A backend that only reports what it would apply (development, or
/// platforms without a WireGuard backend yet).
#[derive(Default)]
pub struct LogBackend;

impl TunnelBackend for LogBackend {
    /// The log backend accepts every configuration.
    open spec fn applied(&self, after: &Self, quick: Seq<char>, sync: Seq<char>, ok: bool) -> bool {
        ok
    }

    fn apply(&mut self, quick_config: &str, sync_config: &str) -> (r: Result<(), anyhow::Error>)
        ensures
            r is Ok,
    {
        Ok(())
    }

    /// The log backend has no counters.
    open spec fn transfer_reported(&self, after: &Self, r: Option<(u64, u64)>) -> bool {
        r is None
    }

    fn transfer(&mut self) -> (r: Option<(u64, u64)>)
        ensures
            r is None,
    {
        None
    }
}

/// `line` without one trailing carriage return.
pub open spec fn strip_cr(line: Seq<char>) -> Seq<char> {
    if line.len() > 0 && line.last() == '\r' {
        line.drop_last()
    } else {
        line
    }
}

/// `str::lines`: the text split at `\n`, a `\r` before a `\n` dropped, and no
/// empty last line after a final `\n`.
pub open spec fn lines_of(s: Seq<char>) -> Seq<Seq<char>> {
    let pieces = split_char(s, '\n');
    let n = if pieces.last().len() == 0 { pieces.len() - 1 } else { pieces.len() as int };
    Seq::new(n as nat, |i: int| if i < pieces.len() - 1 { strip_cr(pieces[i]) } else { pieces[i] })
}

/// A counter column: its trimmed text as a `u64`, or 0 when it does not
/// parse.
pub open spec fn counter_of(col: Seq<char>) -> nat {
    match parse_u64_text(trim_ws(col)) {
        Some(v) => v as nat,
        None => 0,
    }
}

/// The `(rx, tx)` of one `<pubkey>\t<rx>\t<tx>` line; `(0, 0)` for a line
/// with fewer columns.
pub open spec fn line_counters(line: Seq<char>) -> (nat, nat) {
    let cols = split_char(line, '\t');
    if cols.len() >= 3 {
        (counter_of(cols[1]), counter_of(cols[2]))
    } else {
        (0, 0)
    }
}

/// The summed `(rx, tx)` of some lines.
pub open spec fn sum_counters(lines: Seq<Seq<char>>) -> (nat, nat)
    decreases lines.len(),
{
    if lines.len() == 0 {
        (0, 0)
    } else {
        let p = sum_counters(lines.drop_last());
        let c = line_counters(lines.last());
        (p.0 + c.0, p.1 + c.1)
    }
}

/// The totals of `wg show <iface> transfer` output.
pub open spec fn transfer_totals(output: Seq<char>) -> (nat, nat) {
    sum_counters(lines_of(output))
}

proof fn lemma_sum_counters_mono(lines: Seq<Seq<char>>, k: int)
    requires
        0 <= k <= lines.len(),
    ensures
        sum_counters(lines.take(k)).0 <= sum_counters(lines).0,
        sum_counters(lines.take(k)).1 <= sum_counters(lines).1,
    decreases lines.len() - k,
{
    if k < lines.len() {
        lemma_sum_counters_mono(lines, k + 1);
        assert(lines.take(k + 1).drop_last() =~= lines.take(k));
    } else {
        assert(lines.take(k) =~= lines);
    }
}

fn counter(col: &[char]) -> (r: u64)
    ensures
        r as nat == counter_of(col@),
{
    let (a, b) = trim_bounds(col);
    match parse_u64_chars(col, a, b) {
        Some(v) => v,
        None => 0,
    }
}

/// Sum the per-peer counters of `wg show <iface> transfer` output (each line
/// is `<pubkey>\t<rx>\t<tx>`) into `(rx_bytes, tx_bytes)`; `None` when a sum
/// does not fit in 64 bits.
pub fn try_parse_wg_transfer(output: &str) -> (r: Option<(u64, u64)>)
    ensures
        r is Some <==> transfer_totals(output@).0 <= u64::MAX && transfer_totals(output@).1 <= u64::MAX,
        r matches Some(t) ==> t.0 as nat == transfer_totals(output@).0 && t.1 as nat == transfer_totals(output@).1,
{
    let s = chars_of(output);
    let pieces = split_on(&s, '\n');
    let ghost ps = split_char(output@, '\n');
    proof {
        crate::text::lemma_split_char_nonempty(output@, '\n');
    }
    let count = if pieces[pieces.len() - 1].len() == 0 { pieces.len() - 1 } else { pieces.len() };
    let ghost lines = lines_of(output@);
    let mut rx: u64 = 0;
    let mut tx: u64 = 0;
    let mut i: usize = 0;
    while i < count
        invariant
            pieces_view(pieces@) == ps,
            ps == split_char(output@, '\n'),
            lines == lines_of(output@),
            count == lines.len(),
            count <= pieces@.len(),
            i <= count,
            rx as nat == sum_counters(lines.take(i as int)).0,
            tx as nat == sum_counters(lines.take(i as int)).1,
        decreases count - i,
    {
        let piece = &pieces[i];
        let mut line: Vec<char> = Vec::new();
        push_all(&mut line, piece.as_slice());
        if i + 1 < pieces.len() && line.len() > 0 && line[line.len() - 1] == '\r' {
            line.pop();
        }
        assert(line@ == lines[i as int]);
        let cols = split_on(&line, '\t');
        assert(lines.take(i + 1).drop_last() =~= lines.take(i as int));
        assert(lines.take(i + 1).last() == lines[i as int]);
        if cols.len() >= 3 {
            let r = counter(cols[1].as_slice());
            let t = counter(cols[2].as_slice());
            proof {
                assert(pieces_view(cols@)[1] == cols@[1]@);
                assert(pieces_view(cols@)[2] == cols@[2]@);
                lemma_sum_counters_mono(lines, i + 1);
            }
            if r > u64::MAX - rx || t > u64::MAX - tx {
                return None;
            }
            rx = rx + r;
            tx = tx + t;
        }
        i = i + 1;
    }
    assert(lines.take(count as int) =~= lines);
    Some((rx, tx))
}

/// Sum the per-peer counters of `wg show <iface> transfer` output into
/// `(rx_bytes, tx_bytes)`; lines with fewer than three columns count
/// nothing, and a column that is not a number counts 0.
pub fn parse_wg_transfer(output: &str) -> (r: (u64, u64))
    requires
        transfer_totals(output@).0 <= u64::MAX,
        transfer_totals(output@).1 <= u64::MAX,
    ensures
        r.0 as nat == transfer_totals(output@).0,
        r.1 as nat == transfer_totals(output@).1,
{
    match try_parse_wg_transfer(output) {
        Some(t) => t,
        None => (0, 0),
    }
}

/// Splitting a text at `c` splits each part of it, the last piece of the
/// first part joined to the first piece of the second.
proof fn lemma_split_char_concat(a: Seq<char>, b: Seq<char>, c: char)
    ensures
        split_char(a + b, c) == split_char(a, c).drop_last()
            + seq![split_char(a, c).last() + split_char(b, c)[0]]
            + split_char(b, c).drop_first(),
    decreases b.len(),
{
    crate::text::lemma_split_char_nonempty(a, c);
    crate::text::lemma_split_char_nonempty(b, c);
    let sa = split_char(a, c);
    if b.len() == 0 {
        assert(a + b =~= a);
        assert(split_char(b, c) =~= seq![Seq::<char>::empty()]);
        assert(sa.drop_last() + seq![sa.last() + Seq::<char>::empty()] + split_char(b, c).drop_first() =~= sa);
    } else {
        let b1 = b.drop_last();
        let x = b.last();
        lemma_split_char_concat(a, b1, c);
        crate::text::lemma_split_char_nonempty(b1, c);
        assert((a + b).drop_last() =~= a + b1);
        assert((a + b).last() == x);
        let sb1 = split_char(b1, c);
        let init = split_char(a + b1, c);
        if x == c {
            assert(split_char(b, c) == sb1.push(seq![]));
            assert(split_char(a + b, c) == init.push(seq![]));
            if sb1.len() == 1 {
                assert(sb1.drop_first() =~= Seq::<Seq<char>>::empty());
                assert(sb1.push(seq![]).drop_first() =~= seq![Seq::<char>::empty()]);
            } else {
                assert(sb1.push(seq![]).drop_first() =~= sb1.drop_first().push(seq![]));
            }
            assert(split_char(a + b, c) =~= sa.drop_last() + seq![sa.last() + split_char(b, c)[0]]
                + split_char(b, c).drop_first());
        } else {
            assert(split_char(b, c) == sb1.update(sb1.len() - 1, sb1.last().push(x)));
            assert(split_char(a + b, c) == init.update(init.len() - 1, init.last().push(x)));
            if sb1.len() == 1 {
                assert(sa.last() + sb1[0].push(x) =~= (sa.last() + sb1[0]).push(x));
            }
            assert(split_char(a + b, c) =~= sa.drop_last() + seq![sa.last() + split_char(b, c)[0]]
                + split_char(b, c).drop_first());
        }
    }
}

/// The lines of a text that ends a line, followed by more text, are its
/// lines followed by those of the rest.
proof fn lemma_lines_concat(a: Seq<char>, b: Seq<char>)
    requires
        a.len() == 0 || a.last() == '\n',
    ensures
        lines_of(a + b) == lines_of(a) + lines_of(b),
{
    if a.len() == 0 {
        assert(a + b =~= b);
        assert(split_char(a, '\n') =~= seq![Seq::<char>::empty()]);
        assert(lines_of(a) =~= Seq::<Seq<char>>::empty());
        assert(lines_of(a) + lines_of(b) =~= lines_of(b));
    } else {
        lemma_split_char_concat(a, b, '\n');
        crate::text::lemma_split_char_nonempty(a, '\n');
        crate::text::lemma_split_char_nonempty(b, '\n');
        crate::text::lemma_split_char_nonempty(a.drop_last(), '\n');
        let sa = split_char(a, '\n');
        let sb = split_char(b, '\n');
        assert(sa == split_char(a.drop_last(), '\n').push(seq![]));
        assert(sa.last() + sb[0] =~= sb[0]);
        let p = split_char(a + b, '\n');
        assert(p =~= sa.drop_last() + sb);
        assert(lines_of(a + b) =~= lines_of(a) + lines_of(b));
    }
}

/// Summed counters of two runs of lines add up.
proof fn lemma_sum_counters_concat(x: Seq<Seq<char>>, y: Seq<Seq<char>>)
    ensures
        sum_counters(x + y).0 == sum_counters(x).0 + sum_counters(y).0,
        sum_counters(x + y).1 == sum_counters(x).1 + sum_counters(y).1,
    decreases y.len(),
{
    if y.len() == 0 {
        assert(x + y =~= x);
    } else {
        lemma_sum_counters_concat(x, y.drop_last());
        assert((x + y).drop_last() =~= x + y.drop_last());
        assert((x + y).last() == y.last());
    }
}

/// The totals of two `wg show` outputs one after the other, the first ending
/// its last line, are the sums of their totals.
pub proof fn lemma_transfer_totals_concat(a: Seq<char>, b: Seq<char>)
    requires
        a.len() == 0 || a.last() == '\n',
    ensures
        transfer_totals(a + b).0 == transfer_totals(a).0 + transfer_totals(b).0,
        transfer_totals(a + b).1 == transfer_totals(a).1 + transfer_totals(b).1,
{
    lemma_lines_concat(a, b);
    lemma_sum_counters_concat(lines_of(a), lines_of(b));
}

/// What the `wg-quick` backend does on an apply.
#[derive(Debug, Clone, Copy, PartialEq, Eq, Structural)]
pub enum WgStep {
    /// Write the wg-quick file and run `wg-quick up <file>`.
    BringUp,
    /// Write the setconf file and run `wg syncconf <iface> <file>`.
    Sync,
}

/// State of a kernel WireGuard interface driven by `wireguard-tools`: the
/// first apply brings it up, later ones update its peers in place.
pub struct WgQuickState {
    iface: String,
    up: bool,
}

impl WgQuickState {
    pub closed spec fn is_up_spec(self) -> bool {
        self.up
    }

    pub closed spec fn iface_spec(self) -> Seq<char> {
        self.iface@
    }

    /// A backend for interface `iface` (e.g. `whale0`), not up yet.
    pub fn new(iface: String) -> (r: WgQuickState)
        ensures
            !r.is_up_spec(),
            r.iface_spec() == iface@,
    {
        WgQuickState { iface, up: false }
    }

    /// The interface name.
    pub fn iface(&self) -> (r: &str)
        ensures
            r@ == self.iface_spec(),
    {
        self.iface.as_str()
    }

    /// Whether the interface has been brought up.
    pub fn is_up(&self) -> (r: bool)
        ensures
            r == self.is_up_spec(),
    {
        self.up
    }

    /// The step the next apply takes.
    pub fn next_step(&self) -> (r: WgStep)
        ensures
            r == (if self.is_up_spec() { WgStep::Sync } else { WgStep::BringUp }),
    {
        if self.up { WgStep::Sync } else { WgStep::BringUp }
    }

    /// Record that `wg-quick up` succeeded.
    pub fn mark_up(&mut self)
        ensures
            final(self).is_up_spec(),
            final(self).iface_spec() == old(self).iface_spec(),
    {
        self.up = true;
    }

    /// The command the next apply runs, given the path of the file it wrote
    /// for that step: `wg-quick up <path>` before the interface is up,
    /// `wg syncconf <iface> <path>` after.
    pub fn command(&self, path: &str) -> (r: (String, Vec<String>))
        ensures
            !self.is_up_spec() ==> r.0@ == "wg-quick"@ && r.1@.len() == 2
                && r.1@[0]@ == "up"@ && r.1@[1]@ == path@,
            self.is_up_spec() ==> r.0@ == "wg"@ && r.1@.len() == 3
                && r.1@[0]@ == "syncconf"@ && r.1@[1]@ == self.iface_spec()
                && r.1@[2]@ == path@,
    {
        let mut args: Vec<String> = Vec::new();
        if self.up {
            args.push(string_from_chars(&chars_of("syncconf")));
            args.push(string_from_chars(&chars_of(self.iface.as_str())));
            args.push(string_from_chars(&chars_of(path)));
            (string_from_chars(&chars_of("wg")), args)
        } else {
            args.push(string_from_chars(&chars_of("up")));
            args.push(string_from_chars(&chars_of(path)));
            (string_from_chars(&chars_of("wg-quick")), args)
        }
    }

    /// File name of the wg-quick configuration: `<iface>.conf`.
    pub fn quick_file_name(&self) -> (r: String)
        ensures
            r@ == self.iface_spec() + ".conf"@,
    {
        let mut out = chars_of(self.iface.as_str());
        push_all(&mut out, &chars_of(".conf"));
        string_from_chars(&out)
    }

    /// File name of the setconf configuration: `<iface>.sync.conf`.
    pub fn sync_file_name(&self) -> (r: String)
        ensures
            r@ == self.iface_spec() + ".sync.conf"@,
    {
        let mut out = chars_of(self.iface.as_str());
        push_all(&mut out, &chars_of(".sync.conf"));
        string_from_chars(&out)
    }
}

} // verus!
