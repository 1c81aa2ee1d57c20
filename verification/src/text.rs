//! The text of a front end: the lines of the raster and the status line.

use vstd::prelude::*;
use vstd::string::*;
use crate::delivery::StepBudgets;

verus! {

/// The character of a decimal digit.
pub open spec fn digit_char(d: nat) -> char {
    if d == 0 {
        '0'
    } else if d == 1 {
        '1'
    } else if d == 2 {
        '2'
    } else if d == 3 {
        '3'
    } else if d == 4 {
        '4'
    } else if d == 5 {
        '5'
    } else if d == 6 {
        '6'
    } else if d == 7 {
        '7'
    } else if d == 8 {
        '8'
    } else {
        '9'
    }
}

/// The decimal digits of a number, most significant first, without leading
/// zeros.
pub open spec fn decimal(n: nat) -> Seq<char>
    decreases n,
{
    if n < 10 {
        seq![digit_char(n)]
    } else {
        decimal(n / 10).push(digit_char(n % 10))
    }
}

/// The text of the decimal digit `d`.
fn digit_str(d: u64) -> (text: &'static str)
    requires
        d < 10,
    ensures
        text@ == seq![digit_char(d as nat)],
{
    proof {
        reveal_strlit("0");
        reveal_strlit("1");
        reveal_strlit("2");
        reveal_strlit("3");
        reveal_strlit("4");
        reveal_strlit("5");
        reveal_strlit("6");
        reveal_strlit("7");
        reveal_strlit("8");
        reveal_strlit("9");
    }
    let text = if d == 0 {
        "0"
    } else if d == 1 {
        "1"
    } else if d == 2 {
        "2"
    } else if d == 3 {
        "3"
    } else if d == 4 {
        "4"
    } else if d == 5 {
        "5"
    } else if d == 6 {
        "6"
    } else if d == 7 {
        "7"
    } else if d == 8 {
        "8"
    } else {
        "9"
    };
    assert(text@ =~= seq![digit_char(d as nat)]);
    text
}

/// Appends the decimal digits of `n` to `out`.
pub fn append_decimal(out: &mut String, n: u64)
    ensures
        final(out)@ == old(out)@ + decimal(n as nat),
    decreases n,
{
    if n < 10 {
        out.append(digit_str(n));
        assert(out@ =~= old(out)@ + decimal(n as nat));
    } else {
        append_decimal(out, n / 10);
        out.append(digit_str(n % 10));
        assert(out@ =~= old(out)@ + decimal(n as nat));
    }
}

/// The label of row `idx` of the raster: `n`, the index in at least two
/// digits, a blank and a bar.
pub open spec fn row_label_text(idx: nat) -> Seq<char> {
    if idx < 10 {
        "n0"@ + decimal(idx) + " |"@
    } else {
        "n"@ + decimal(idx) + " |"@
    }
}

/// The label of row `idx` of the raster.
pub fn row_label(idx: usize) -> (label: String)
    ensures
        label@ == row_label_text(idx as nat),
{
    let mut label = if idx < 10 {
        String::from_str("n0")
    } else {
        String::from_str("n")
    };
    append_decimal(&mut label, idx as u64);
    label.append(" |");
    assert(label@ =~= row_label_text(idx as nat));
    label
}

/// The text of an optional limit: its decimal digits, or a dash where there
/// is none.
pub open spec fn limit_text(limit: Option<usize>) -> Seq<char> {
    match limit {
        Some(v) => decimal(v as nat),
        None => "-"@,
    }
}

/// The text of the status line.
pub open spec fn status_text(
    tick: u64,
    neurons: usize,
    running: bool,
    budgets: Option<StepBudgets>,
    plasticity: bool,
) -> Seq<char> {
    let b = match budgets {
        Some(b) => b,
        None => StepBudgets::unbounded(),
    };
    "Tick: "@ + decimal(tick as nat) + " | Neurons: "@ + decimal(neurons as nat) + " | Running: "@
        + (if running {
        "yes"@
    } else {
        "no"@
    }) + " | Budgets: edges="@ + limit_text(b.max_edge_visits) + " spikes="@ + limit_text(
        b.max_spikes_scheduled,
    ) + " | Plasticity: "@ + (if plasticity {
        "on"@
    } else {
        "off"@
    })
        + " | Controls: [s] Step  [r] Run/Pause  [+/-] edges  [[]/] spikes  [p] plast  [q] Quit"@
}

/// Appends the text of an optional limit to `out`.
fn append_limit(out: &mut String, limit: Option<usize>)
    ensures
        final(out)@ == old(out)@ + limit_text(limit),
{
    match limit {
        Some(v) => {
            append_decimal(out, v as u64);
        },
        None => {
            out.append("-");
        },
    }
}

/// The status line: the tick count, the number of neurons, whether the
/// front end runs, the budgets, whether plasticity is on, and the keys.
pub fn status_line(
    tick: u64,
    neurons: usize,
    running: bool,
    budgets: Option<StepBudgets>,
    plasticity: bool,
) -> (line: String)
    ensures
        line@ == status_text(tick, neurons, running, budgets, plasticity),
{
    let b = match budgets {
        Some(b) => b,
        None => StepBudgets { max_edge_visits: None, max_spikes_scheduled: None },
    };
    let mut line = String::from_str("Tick: ");
    append_decimal(&mut line, tick);
    line.append(" | Neurons: ");
    append_decimal(&mut line, neurons as u64);
    line.append(" | Running: ");
    if running {
        line.append("yes");
    } else {
        line.append("no");
    }
    line.append(" | Budgets: edges=");
    append_limit(&mut line, b.max_edge_visits);
    line.append(" spikes=");
    append_limit(&mut line, b.max_spikes_scheduled);
    line.append(" | Plasticity: ");
    if plasticity {
        line.append("on");
    } else {
        line.append("off");
    }
    line.append(
        " | Controls: [s] Step  [r] Run/Pause  [+/-] edges  [[]/] spikes  [p] plast  [q] Quit",
    );
    assert(line@ =~= status_text(tick, neurons, running, budgets, plasticity));
    line
}

} // verus!
