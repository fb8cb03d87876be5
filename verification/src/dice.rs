//! Reading dice expressions such as `2d6 + 3`: each `NdM [op K]` group, with
//! its numbers parsed and the expressions that cannot be rolled refused.

use vstd::prelude::*;
use crate::numbers::{parse_i64, parse_i64_spec};
use crate::pattern::{regex_captures, regex_groups};
use crate::text::{chars_to_string, trim, trim_chars, str_to_chars, CharClass};

verus! {

// ---------------------------------------------------------------------------
// Finding the groups
// ---------------------------------------------------------------------------

/// The pattern of one dice group: a count, `d`, the faces, and an optional
/// operator with its operand.
pub open spec fn dice_pattern() -> Seq<char> {
    "(\\d+)\\s*d\\s*(\\d+)\\s*([+\\-*/^‽]\\s*\\d+)?"@
}

// ---------------------------------------------------------------------------
// Groups
// ---------------------------------------------------------------------------

/// What the operator of a group does to its sum.
#[derive(Debug, Clone, Copy, PartialEq, Eq, Structural)]
pub enum DiceOp {
    Add,
    Sub,
    Mul,
    Div,
    Pow,
    /// `‽`: the sum becomes 42.
    Answer,
    /// Any other character: the sum stays.
    Keep,
}

/// The operator a character names.
pub open spec fn op_of(c: char) -> DiceOp {
    if c == '+' { DiceOp::Add }
    else if c == '-' { DiceOp::Sub }
    else if c == '*' { DiceOp::Mul }
    else if c == '/' { DiceOp::Div }
    else if c == '^' { DiceOp::Pow }
    else if c == '‽' { DiceOp::Answer }
    else { DiceOp::Keep }
}

/// One `NdM [op K]` group to roll.
#[derive(Debug, PartialEq)]
pub struct DiceGroup {
    pub count: i64,
    pub faces: i64,
    pub op: Option<(DiceOp, i64)>,
}

/// A group as plain numbers.
pub open spec fn group_view(g: DiceGroup) -> (int, int, Option<(DiceOp, int)>) {
    (g.count as int, g.faces as int, match g.op { Some((o, k)) => Some((o, k as int)), None => None })
}

/// A group read from its three captured texts: count and faces parsed (0 when
/// they do not parse), the operator its first character and the operand the rest,
/// trimmed; `None` when it cannot be rolled (dice without faces, an operand that
/// does not parse, a division by zero).
pub open spec fn dice_group_spec(g: (Seq<char>, Seq<char>, Seq<char>)) -> Option<(int, int, Option<(DiceOp, int)>)> {
    let count = match parse_i64_spec(g.0) { Some(n) => n, None => 0 };
    let faces = match parse_i64_spec(g.1) { Some(n) => n, None => 0 };
    if count > 0 && faces < 1 {
        None
    } else if g.2.len() == 0 {
        Some((count, faces, None))
    } else {
        match parse_i64_spec(trim(g.2.skip(1), CharClass::Whitespace)) {
            None => None,
            Some(k) => if op_of(g.2[0]) == DiceOp::Div && k == 0 {
                None
            } else {
                Some((count, faces, Some((op_of(g.2[0]), k))))
            },
        }
    }
}

fn op_for(c: char) -> (o: DiceOp)
    ensures
        o == op_of(c),
{
    if c == '+' { DiceOp::Add }
    else if c == '-' { DiceOp::Sub }
    else if c == '*' { DiceOp::Mul }
    else if c == '/' { DiceOp::Div }
    else if c == '^' { DiceOp::Pow }
    else if c == '‽' { DiceOp::Answer }
    else { DiceOp::Keep }
}

/// Reads one group from its captured texts (see [`dice_group_spec`]).
pub fn read_group(count: &str, faces: &str, math: &str) -> (r: Option<DiceGroup>)
    ensures
        match r {
            Some(g) => dice_group_spec((count@, faces@, math@)) == Some(group_view(g)),
            None => dice_group_spec((count@, faces@, math@)) is None,
        },
{
    let n: i64 = match parse_i64(count) { Some(x) => x, None => 0 };
    let f: i64 = match parse_i64(faces) { Some(x) => x, None => 0 };
    if n > 0 && f < 1 {
        return None;
    }
    let m = str_to_chars(math);
    if m.len() == 0 {
        return Some(DiceGroup { count: n, faces: f, op: None });
    }
    let mut rest: Vec<char> = Vec::new();
    let mut i: usize = 1;
    while i < m.len()
        invariant
            1 <= i <= m@.len(),
            rest@ == m@.subrange(1, i as int),
        decreases m.len() - i,
    {
        rest.push(m[i]);
        i += 1;
    }
    assert(rest@ == m@.skip(1));
    let t = trim_chars(rest.as_slice(), &CharClass::Whitespace);
    let ts = chars_to_string(t.as_slice());
    let k = match parse_i64(ts.as_str()) {
        Some(x) => x,
        None => {
            return None;
        },
    };
    let o = op_for(m[0]);
    if o == DiceOp::Div && k == 0 {
        return None;
    }
    Some(DiceGroup { count: n, faces: f, op: Some((o, k)) })
}

/// Reads every group of a dice expression, left to right; `Err` when the
/// pattern is rejected or any group cannot be rolled (see [`dice_group_spec`]).
pub fn read_dice(text: &str) -> (r: Result<Vec<DiceGroup>, ()>)
    ensures
        match regex_captures(dice_pattern(), text@) {
            None => r is Err,
            Some(gs) => match r {
                Ok(v) => v@.len() == gs.len()
                    && forall|i: int| 0 <= i < gs.len() ==> dice_group_spec(#[trigger] gs[i]) == Some(group_view(v@[i])),
                Err(_) => exists|i: int| 0 <= i < gs.len() && dice_group_spec(#[trigger] gs[i]) is None,
            },
        },
{
    let groups = match regex_groups("(\\d+)\\s*d\\s*(\\d+)\\s*([+\\-*/^‽]\\s*\\d+)?", text) {
        Some(g) => g,
        None => {
            return Err(());
        },
    };
    let ghost gs = groups@.map_values(|g: (String, String, String)| (g.0@, g.1@, g.2@));
    let mut out: Vec<DiceGroup> = Vec::new();
    let mut i: usize = 0;
    while i < groups.len()
        invariant
            i <= groups@.len(),
            gs == groups@.map_values(|g: (String, String, String)| (g.0@, g.1@, g.2@)),
            regex_captures(dice_pattern(), text@) == Some(gs),
            out@.len() == i,
            forall|j: int| 0 <= j < i ==> dice_group_spec(#[trigger] gs[j]) == Some(group_view(out@[j])),
        decreases groups.len() - i,
    {
        let g = &groups[i];
        assert(gs[i as int] == (g.0@, g.1@, g.2@));
        match read_group(g.0.as_str(), g.1.as_str(), g.2.as_str()) {
            Some(dg) => {
                out.push(dg);
            },
            None => {
                assert(dice_group_spec(gs[i as int]) is None);
                return Err(());
            },
        }
        i += 1;
    }
    Ok(out)
}

} // verus!
