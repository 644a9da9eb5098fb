use vstd::prelude::*;

use crate::board::Board;
use crate::model::BoardView;

verus! {

/// The byte of an ASCII space.
pub const SPACE: u8 = 32;

/// True iff `b` is an ASCII digit.
pub open spec fn is_digit(b: u8) -> bool {
    48 <= b <= 57
}

/// A non-empty run of ASCII digits.
pub open spec fn all_digits(t: Seq<u8>) -> bool {
    t.len() > 0 && forall|i: int| 0 <= i < t.len() ==> is_digit(#[trigger] t[i])
}

/// The value of a run of ASCII digits read in base ten.
pub open spec fn decimal(t: Seq<u8>) -> nat
    decreases t.len(),
{
    if t.len() == 0 {
        0
    } else {
        decimal(t.drop_last()) * 10 + (t.last() - 48) as nat
    }
}

/// The number that `t` spells in decimal, where it fits in a `u64`.
pub open spec fn u64_of(t: Seq<u8>) -> Option<u64> {
    if all_digits(t) && decimal(t) <= u64::MAX {
        Some(decimal(t) as u64)
    } else {
        None
    }
}

/// True iff `i` is the index of the first space in `t`.
pub open spec fn is_first_space(t: Seq<u8>, i: int) -> bool {
    &&& 0 <= i < t.len()
    &&& t[i] == SPACE
    &&& forall|j: int| 0 <= j < i ==> t[j] != SPACE
}

/// What comes before the first space of `t` and what comes after it.
pub open spec fn split_first_space(t: Seq<u8>) -> Option<(Seq<u8>, Seq<u8>)> {
    if exists|i: int| is_first_space(t, i) {
        let i = choose|i: int| is_first_space(t, i);
        Some((t.take(i), t.skip(i + 1)))
    } else {
        None
    }
}

/// A prefix of a run of digits never reads as a larger number.
proof fn lemma_decimal_prefix(t: Seq<u8>, k: int)
    requires
        0 <= k <= t.len(),
        forall|i: int| 0 <= i < t.len() ==> is_digit(#[trigger] t[i]),
    ensures
        decimal(t.take(k)) <= decimal(t),
    decreases t.len(),
{
    if k < t.len() {
        let u = t.drop_last();
        assert(t.take(k) =~= u.take(k));
        assert forall|i: int| 0 <= i < u.len() implies is_digit(#[trigger] u[i]) by {
            assert(u[i] == t[i]);
        }
        lemma_decimal_prefix(u, k);
    } else {
        assert(t.take(k) =~= t);
    }
}

/// Reads `t` as a decimal number that fits in a `u64`.
fn parse_u64(t: &[u8]) -> (r: Option<u64>)
    ensures
        r == u64_of(t@),
{
    if t.len() == 0 {
        return None;
    }
    let mut acc: u64 = 0;
    let mut i: usize = 0;
    assert(t@.take(0) =~= Seq::<u8>::empty());
    while i < t.len()
        invariant
            i <= t.len(),
            forall|j: int| 0 <= j < i ==> is_digit(#[trigger] t@[j]),
            acc == decimal(t@.take(i as int)),
        decreases t.len() - i,
    {
        let b = t[i];
        if b < 48 || b > 57 {
            return None;
        }
        let d = (b - 48) as u64;
        assert(t@.take(i + 1).drop_last() =~= t@.take(i as int));
        let next = match acc.checked_mul(10) {
            Some(m) => m.checked_add(d),
            None => None,
        };
        match next {
            Some(v) => {
                acc = v;
            },
            None => {
                proof {
                    if all_digits(t@) {
                        lemma_decimal_prefix(t@, i + 1);
                    }
                }
                return None;
            },
        }
        i += 1;
    }
    assert(t@.take(t.len() as int) =~= t@);
    Some(acc)
}

/// The index of the first space in `t`, if there is one.
fn first_space(t: &[u8]) -> (r: Option<usize>)
    ensures
        match r {
            Some(i) => is_first_space(t@, i as int),
            None => forall|i: int| !is_first_space(t@, i),
        },
{
    let mut i: usize = 0;
    while i < t.len()
        invariant
            i <= t.len(),
            forall|j: int| 0 <= j < i ==> t@[j] != SPACE,
        decreases t.len() - i,
    {
        if t[i] == SPACE {
            return Some(i);
        }
        i += 1;
    }
    None
}

/// The bytes of `t` from `lo` up to `hi`.
fn slice_of(t: &[u8], lo: usize, hi: usize) -> (r: Vec<u8>)
    requires
        lo <= hi <= t.len(),
    ensures
        r@ == t@.subrange(lo as int, hi as int),
{
    let mut r: Vec<u8> = Vec::new();
    let mut i: usize = lo;
    while i < hi
        invariant
            lo <= i <= hi <= t.len(),
            r@ == t@.subrange(lo as int, i as int),
        decreases hi - i,
    {
        r.push(t[i]);
        assert(r@ =~= t@.subrange(lo as int, i + 1));
        i += 1;
    }
    r
}

/// Splits `t` at its first space.
fn split_at_first_space(t: &[u8]) -> (r: Option<(Vec<u8>, Vec<u8>)>)
    ensures
        match r {
            Some((a, b)) => split_first_space(t@) == Some((a@, b@)),
            None => split_first_space(t@) is None,
        },
{
    match first_space(t) {
        Some(i) => {
            let n = t.len();
            assert(i < n);
            let a = slice_of(t, 0, i);
            let b = slice_of(t, i + 1, n);
            proof {
                let k = choose|k: int| is_first_space(t@, k);
                assert(k == i as int) by {
                    if k < i {
                        assert(t@[k] != SPACE);
                    } else if k > i {
                        assert(t@[i as int] != SPACE);
                    }
                }
                assert(a@ =~= t@.take(i as int));
                assert(b@ =~= t@.skip(i + 1));
            }
            Some((a, b))
        },
        None => None,
    }
}

/// A command of the interactive loop.
#[derive(PartialEq, Eq, Structural, Debug, Clone, Copy)]
pub enum Command {
    /// `get x y`: ask whether a cell is alive.
    GetCell(u64, u64),
    /// `set x y true|false`: make a cell alive or dead.
    SetCell(u64, u64, bool),
    /// `next`: advance one generation.
    Next,
    /// `run n`: advance `n` generations.
    Run(u32),
    /// `anim n`: advance `n` generations, showing the board after each.
    Anim(u32),
    /// `print`: show the board.
    Print,
    /// `exit`: leave the loop.
    Exit,
    /// Anything else.
    Unknown,
}

/// What the loop does after a command.
#[derive(PartialEq, Eq, Structural, Debug, Clone, Copy)]
pub enum Reply {
    /// Report whether the asked cell is alive.
    Alive(bool),
    /// Show the board.
    Show,
    /// Advance and show the board this many times.
    Animate(u32),
    /// Explain the commands.
    Usage,
    /// Nothing to report.
    Done,
    /// Leave the loop.
    Exit,
}

/// `exit`.
pub open spec fn kw_exit() -> Seq<u8> {
    seq![101u8, 120u8, 105u8, 116u8]
}

/// `next`.
pub open spec fn kw_next() -> Seq<u8> {
    seq![110u8, 101u8, 120u8, 116u8]
}

/// `print`.
pub open spec fn kw_print() -> Seq<u8> {
    seq![112u8, 114u8, 105u8, 110u8, 116u8]
}

/// `get` and a space.
pub open spec fn kw_get() -> Seq<u8> {
    seq![103u8, 101u8, 116u8, 32u8]
}

/// `set` and a space.
pub open spec fn kw_set() -> Seq<u8> {
    seq![115u8, 101u8, 116u8, 32u8]
}

/// `run` and a space.
pub open spec fn kw_run() -> Seq<u8> {
    seq![114u8, 117u8, 110u8, 32u8]
}

/// `anim` and a space.
pub open spec fn kw_anim() -> Seq<u8> {
    seq![97u8, 110u8, 105u8, 109u8, 32u8]
}

/// `true`.
pub open spec fn kw_true() -> Seq<u8> {
    seq![116u8, 114u8, 117u8, 101u8]
}

/// `false`.
pub open spec fn kw_false() -> Seq<u8> {
    seq![102u8, 97u8, 108u8, 115u8, 101u8]
}

/// True iff `t` begins with `p`.
pub open spec fn has_prefix(t: Seq<u8>, p: Seq<u8>) -> bool {
    p.len() <= t.len() && t.take(p.len() as int) == p
}

/// The number that `t` spells in decimal, where it fits in a `u32`.
pub open spec fn u32_of(t: Seq<u8>) -> Option<u32> {
    match u64_of(t) {
        Some(v) => if v <= u32::MAX {
            Some(v as u32)
        } else {
            None
        },
        None => None,
    }
}

/// The truth value that `t` spells.
pub open spec fn bool_of(t: Seq<u8>) -> Option<bool> {
    if t == kw_true() {
        Some(true)
    } else if t == kw_false() {
        Some(false)
    } else {
        None
    }
}

/// Two numbers separated by one space.
pub open spec fn pair_of(t: Seq<u8>) -> Option<(u64, u64)> {
    match split_first_space(t) {
        Some((a, b)) => match (u64_of(a), u64_of(b)) {
            (Some(x), Some(y)) => Some((x, y)),
            _ => None,
        },
        None => None,
    }
}

/// Two numbers and a truth value, separated by single spaces.
pub open spec fn triple_of(t: Seq<u8>) -> Option<(u64, u64, bool)> {
    match split_first_space(t) {
        Some((a, rest)) => match split_first_space(rest) {
            Some((b, v)) => match (u64_of(a), u64_of(b), bool_of(v)) {
                (Some(x), Some(y), Some(z)) => Some((x, y, z)),
                _ => None,
            },
            None => None,
        },
        None => None,
    }
}

/// The command that a line (without its line break) spells.
pub open spec fn command_of(s: Seq<u8>) -> Command {
    if s == kw_exit() {
        Command::Exit
    } else if s == kw_next() {
        Command::Next
    } else if s == kw_print() {
        Command::Print
    } else if has_prefix(s, kw_get()) {
        match pair_of(s.skip(4)) {
            Some((x, y)) => Command::GetCell(x, y),
            None => Command::Unknown,
        }
    } else if has_prefix(s, kw_set()) {
        match triple_of(s.skip(4)) {
            Some((x, y, v)) => Command::SetCell(x, y, v),
            None => Command::Unknown,
        }
    } else if has_prefix(s, kw_run()) {
        match u32_of(s.skip(4)) {
            Some(n) => Command::Run(n),
            None => Command::Unknown,
        }
    } else if has_prefix(s, kw_anim()) {
        match u32_of(s.skip(5)) {
            Some(n) => Command::Anim(n),
            None => Command::Unknown,
        }
    } else {
        Command::Unknown
    }
}

/// The board and the reply after `c` on board `b`.
pub open spec fn outcome(b: BoardView, c: Command) -> (BoardView, Reply) {
    match c {
        Command::GetCell(x, y) => (b, Reply::Alive(b.is_alive((x, y)))),
        Command::SetCell(x, y, v) => (if v {
            b.spawn((x, y))
        } else {
            b.kill((x, y))
        }, Reply::Done),
        Command::Next => (b.step(), Reply::Done),
        Command::Run(n) => (b.steps(n as nat), Reply::Done),
        Command::Anim(n) => (b, Reply::Animate(n)),
        Command::Print => (b, Reply::Show),
        Command::Exit => (b, Reply::Exit),
        Command::Unknown => (b, Reply::Usage),
    }
}

/// True iff `a` and `b` hold the same bytes.
fn same_bytes(a: &[u8], b: &[u8]) -> (r: bool)
    ensures
        r == (a@ == b@),
{
    if a.len() != b.len() {
        return false;
    }
    let mut i: usize = 0;
    while i < a.len()
        invariant
            i <= a.len() == b.len(),
            forall|j: int| 0 <= j < i ==> a@[j] == b@[j],
        decreases a.len() - i,
    {
        if a[i] != b[i] {
            return false;
        }
        i += 1;
    }
    assert(a@ =~= b@);
    true
}

/// What follows `p` in `t`, where `t` begins with `p`.
fn strip_prefix(t: &[u8], p: &[u8]) -> (r: Option<Vec<u8>>)
    ensures
        match r {
            Some(rest) => has_prefix(t@, p@) && rest@ == t@.skip(p@.len() as int),
            None => !has_prefix(t@, p@),
        },
{
    let n = t.len();
    if p.len() > n {
        return None;
    }
    let head = slice_of(t, 0, p.len());
    if !same_bytes(head.as_slice(), p) {
        return None;
    }
    let rest = slice_of(t, p.len(), n);
    assert(rest@ =~= t@.skip(p@.len() as int));
    Some(rest)
}

/// Reads `t` as a decimal number that fits in a `u32`.
fn parse_u32(t: &[u8]) -> (r: Option<u32>)
    ensures
        r == u32_of(t@),
{
    match parse_u64(t) {
        Some(v) => if v <= u32::MAX as u64 {
            Some(v as u32)
        } else {
            None
        },
        None => None,
    }
}

/// Reads `t` as `true` or `false`.
fn parse_bool(t: &[u8]) -> (r: Option<bool>)
    ensures
        r == bool_of(t@),
{
    let yes: [u8; 4] = [116, 114, 117, 101];
    let no: [u8; 5] = [102, 97, 108, 115, 101];
    assert(yes@ =~= kw_true());
    assert(no@ =~= kw_false());
    if same_bytes(t, yes.as_slice()) {
        Some(true)
    } else if same_bytes(t, no.as_slice()) {
        Some(false)
    } else {
        None
    }
}

/// Reads `t` as two numbers separated by one space.
fn parse_pair(t: &[u8]) -> (r: Option<(u64, u64)>)
    ensures
        r == pair_of(t@),
{
    match split_at_first_space(t) {
        Some((a, b)) => match (parse_u64(a.as_slice()), parse_u64(b.as_slice())) {
            (Some(x), Some(y)) => Some((x, y)),
            _ => None,
        },
        None => None,
    }
}

/// Reads `t` as two numbers and a truth value, separated by single spaces.
fn parse_triple(t: &[u8]) -> (r: Option<(u64, u64, bool)>)
    ensures
        r == triple_of(t@),
{
    match split_at_first_space(t) {
        Some((a, rest)) => match split_at_first_space(rest.as_slice()) {
            Some((b, v)) => match (
                parse_u64(a.as_slice()),
                parse_u64(b.as_slice()),
                parse_bool(v.as_slice()),
            ) {
                (Some(x), Some(y), Some(z)) => Some((x, y, z)),
                _ => None,
            },
            None => None,
        },
        None => None,
    }
}

/// Reads one line of input (without its line break) as a command.
pub fn parse_command(line: &[u8]) -> (r: Command)
    ensures
        r == command_of(line@),
{
    let exit: [u8; 4] = [101, 120, 105, 116];
    let next: [u8; 4] = [110, 101, 120, 116];
    let print: [u8; 5] = [112, 114, 105, 110, 116];
    let get: [u8; 4] = [103, 101, 116, 32];
    let set: [u8; 4] = [115, 101, 116, 32];
    let run: [u8; 4] = [114, 117, 110, 32];
    let anim: [u8; 5] = [97, 110, 105, 109, 32];
    assert(exit@ =~= kw_exit());
    assert(next@ =~= kw_next());
    assert(print@ =~= kw_print());
    assert(get@ =~= kw_get());
    assert(set@ =~= kw_set());
    assert(run@ =~= kw_run());
    assert(anim@ =~= kw_anim());
    if same_bytes(line, exit.as_slice()) {
        return Command::Exit;
    }
    if same_bytes(line, next.as_slice()) {
        return Command::Next;
    }
    if same_bytes(line, print.as_slice()) {
        return Command::Print;
    }
    if let Some(rest) = strip_prefix(line, get.as_slice()) {
        return match parse_pair(rest.as_slice()) {
            Some((x, y)) => Command::GetCell(x, y),
            None => Command::Unknown,
        };
    }
    if let Some(rest) = strip_prefix(line, set.as_slice()) {
        return match parse_triple(rest.as_slice()) {
            Some((x, y, v)) => Command::SetCell(x, y, v),
            None => Command::Unknown,
        };
    }
    if let Some(rest) = strip_prefix(line, run.as_slice()) {
        return match parse_u32(rest.as_slice()) {
            Some(n) => Command::Run(n),
            None => Command::Unknown,
        };
    }
    if let Some(rest) = strip_prefix(line, anim.as_slice()) {
        return match parse_u32(rest.as_slice()) {
            Some(n) => Command::Anim(n),
            None => Command::Unknown,
        };
    }
    Command::Unknown
}

/// Carries out `command` on `board` and says what the loop does next.
pub fn execute(board: &mut Board, command: Command) -> (r: Reply)
    requires
        old(board).inv(),
    ensures
        final(board).inv(),
        (final(board)@, r) == outcome(old(board)@, command),
{
    match command {
        Command::GetCell(x, y) => Reply::Alive(board.is_alive(&(x, y))),
        Command::SetCell(x, y, v) => {
            if v {
                board.spawn(&(x, y));
            } else {
                board.kill(&(x, y));
            }
            Reply::Done
        },
        Command::Next => {
            board.update();
            Reply::Done
        },
        Command::Run(n) => {
            board.run(n);
            Reply::Done
        },
        Command::Anim(n) => Reply::Animate(n),
        Command::Print => Reply::Show,
        Command::Exit => Reply::Exit,
        Command::Unknown => Reply::Usage,
    }
}

} // verus!
