//! Interactive selection: renders the target menu and interprets one line of
//! operator input at a time. The quit token (case-insensitive) cancels, a
//! valid 1-based index consumes that slot and resolves to its target, and
//! anything else asks the caller to re-prompt; one input line never ends the
//! session by itself.

use vstd::prelude::*;
use vstd::string::StrSliceExecFns;
use vstd::string::StringExecFns;
use crate::extract::{slots_model, TargetDescriptor, TargetList, TargetModel};
use crate::text::{
    all_digits, digits_val, numeral_digits, parse_decimal, spec_dec, trim_bounds, trimmed,
    usize_to_string,
};

verus! {

/// How one interactive selection ends: a target was chosen, or the operator
/// quit on purpose. Cancellation is not an error.
pub enum SelectionOutcome {
    Chosen(String),
    Cancelled,
}

/// The fixed first menu line: the quit directive.
pub open spec fn quit_line() -> Seq<char> {
    "q) Quit"@
}

/// The menu lines of the present slots, in order: the slot at position `i`
/// is offered under the 1-based index `i + 1`.
pub open spec fn menu_entries(slots: Seq<Option<TargetDescriptor>>) -> Seq<Seq<char>>
    decreases slots.len(),
{
    if slots.len() == 0 {
        Seq::empty()
    } else {
        let rest = menu_entries(slots.drop_last());
        match slots.last() {
            Some(td) => rest.push(spec_dec(slots.len() as nat) + ") "@ + td.name@),
            None => rest,
        }
    }
}

/// Law: with nothing extracted, the menu offers only the quit directive.
pub proof fn lemma_empty_menu(slots: Seq<Option<TargetDescriptor>>)
    requires
        slots.len() == 0,
    ensures
        seq![quit_line()] + menu_entries(slots) =~= seq![quit_line()],
{
}

/// Renders the prompt menu: the quit directive first, then one line per
/// present slot, each under its 1-based index.
pub fn menu_lines(targets: &TargetList) -> (lines: Vec<String>)
    ensures
        lines.deep_view() == seq![quit_line()] + menu_entries(targets.slots@),
{
    let mut lines: Vec<String> = Vec::new();
    lines.push(String::from_str("q) Quit"));
    let mut i: usize = 0;
    proof {
        assert(targets.slots@.take(0) =~= Seq::<Option<TargetDescriptor>>::empty());
        assert(lines.deep_view() =~= seq![quit_line()] + menu_entries(targets.slots@.take(0)));
    }
    while i < targets.slots.len()
        invariant
            0 <= i <= targets.slots@.len(),
            lines.deep_view() == seq![quit_line()] + menu_entries(targets.slots@.take(i as int)),
        decreases targets.slots@.len() - i,
    {
        proof {
            assert(targets.slots@.take(i + 1).drop_last() =~= targets.slots@.take(i as int));
            assert(targets.slots@.take(i + 1).last() == targets.slots@[i as int]);
        }
        let ghost old_lines = lines.deep_view();
        match &targets.slots[i] {
            Some(td) => {
                let line = usize_to_string(i + 1).concat(") ").concat(td.name.as_str());
                lines.push(line);
                proof {
                    assert(lines.deep_view() =~= old_lines.push(
                        spec_dec((i + 1) as nat) + ") "@ + td.name@,
                    ));
                }
            },
            None => {},
        }
        i = i + 1;
    }
    proof {
        assert(targets.slots@.take(targets.slots@.len() as int) =~= targets.slots@);
    }
    lines
}

/// Law: over freshly extracted slots, none consumed yet, the menu offers
/// after the quit line one line per extracted target, in the extracted
/// order: its 1-based index, the separator, then its name.
pub proof fn lemma_menu_fresh(slots: Seq<Option<TargetDescriptor>>, models: Seq<TargetModel>)
    requires
        slots_model(slots, models),
    ensures
        menu_entries(slots) =~= Seq::new(
            models.len(),
            |k: int| spec_dec((k + 1) as nat) + ") "@ + models[k].0,
        ),
    decreases slots.len(),
{
    if slots.len() > 0 {
        let sp = slots.drop_last();
        let mp = models.drop_last();
        assert(forall|i: int| 0 <= i < sp.len() ==> sp[i] == slots[i]);
        lemma_menu_fresh(sp, mp);
        assert(slots[slots.len() - 1] matches Some(td) && td.name@ == models[models.len() - 1].0);
    }
}

/// The quit token: a lone `q`, in either letter case.
pub open spec fn spec_quit(t: Seq<char>) -> bool {
    t.len() == 1 && (t[0] == 'q' || t[0] == 'Q')
}

/// An input resolves to a slot iff it is all digits after an optional
/// leading plus sign, names a 1-based index into the slots, and that slot is
/// still present.
pub open spec fn valid_pick(slots: Seq<Option<TargetDescriptor>>, t: Seq<char>) -> bool {
    let d = numeral_digits(t);
    &&& d.len() > 0
    &&& all_digits(d)
    &&& 1 <= digits_val(d) <= slots.len()
    &&& slots[digits_val(d) - 1] is Some
}

/// Interprets one line of operator input against the current slots.
///
/// The trimmed line is the quit token in any letter case: `Cancelled`, and
/// the slots stay as they are. It names a present slot by its 1-based index,
/// in digits after an optional plus sign: that slot is consumed and its
/// target is `Chosen`. Anything else: `None`, the slots stay as they are,
/// and the caller re-prompts; no input ever ends the prompt loop by itself.
pub fn choose_step(targets: &mut TargetList, line: &str) -> (r: Option<SelectionOutcome>)
    ensures
        ({
            let t = trimmed(line@);
            let d = numeral_digits(t);
            let slots0 = old(targets).slots@;
            if spec_quit(t) {
                &&& r == Some(SelectionOutcome::Cancelled)
                &&& final(targets).slots@ == slots0
            } else if valid_pick(slots0, t) {
                &&& r matches Some(SelectionOutcome::Chosen(nm)) && (slots0[digits_val(d)
                    - 1] matches Some(td) && nm@ == td.name@)
                &&& final(targets).slots@ == slots0.update(
                    digits_val(d) - 1,
                    None::<TargetDescriptor>,
                )
            } else {
                &&& r is None
                &&& final(targets).slots@ == slots0
            }
        }),
{
    let (start, end) = trim_bounds(line);
    let ghost t = trimmed(line@);
    if end - start == 1 {
        let c = line.get_char(start);
        if c == 'q' || c == 'Q' {
            proof {
                assert(t[0] == line@[start as int]);
            }
            return Some(SelectionOutcome::Cancelled);
        }
    }
    proof {
        assert(!spec_quit(t));
    }
    let pstart = if start < end && line.get_char(start) == '+' {
        start + 1
    } else {
        start
    };
    proof {
        assert(line@.subrange(pstart as int, end as int) =~= numeral_digits(t));
    }
    match parse_decimal(line, pstart, end) {
        Some(v) => {
            if 1 <= v && v - 1 < targets.slots.len() {
                let idx = v - 1;
                let name = match &targets.slots[idx] {
                    Some(td) => td.name.clone(),
                    None => {
                        return None;
                    },
                };
                targets.slots.set(idx, None);
                proof {
                    assert(final(targets).slots@ =~= old(targets).slots@.update(
                        digits_val(numeral_digits(t)) - 1,
                        None::<TargetDescriptor>,
                    ));
                }
                Some(SelectionOutcome::Chosen(name))
            } else {
                None
            }
        },
        None => {
            proof {
                assert(targets.slots@.len() == targets.slots.len());
            }
            None
        },
    }
}

/// The names of the present slots, in order.
pub open spec fn present_names(slots: Seq<Option<TargetDescriptor>>) -> Seq<Seq<char>>
    decreases slots.len(),
{
    if slots.len() == 0 {
        Seq::empty()
    } else {
        let rest = present_names(slots.drop_last());
        match slots.last() {
            Some(td) => rest.push(td.name@),
            None => rest,
        }
    }
}

/// Law: over freshly extracted slots, none consumed yet, batch selection
/// owes exactly the extracted names, in the extracted order.
pub proof fn lemma_present_names_fresh(
    slots: Seq<Option<TargetDescriptor>>,
    models: Seq<TargetModel>,
)
    requires
        slots_model(slots, models),
    ensures
        present_names(slots) =~= Seq::new(models.len(), |k: int| models[k].0),
    decreases slots.len(),
{
    if slots.len() > 0 {
        let sp = slots.drop_last();
        let mp = models.drop_last();
        assert(forall|i: int| 0 <= i < sp.len() ==> sp[i] == slots[i]);
        lemma_present_names_fresh(sp, mp);
        assert(slots[slots.len() - 1] matches Some(td) && td.name@ == models[models.len() - 1].0);
    }
}

/// Batch selection: every present target name, in order, with no
/// interaction.
pub fn select_all(targets: &TargetList) -> (names: Vec<String>)
    ensures
        names.deep_view() == present_names(targets.slots@),
{
    let mut names: Vec<String> = Vec::new();
    let mut i: usize = 0;
    proof {
        assert(targets.slots@.take(0) =~= Seq::<Option<TargetDescriptor>>::empty());
        assert(names.deep_view() =~= present_names(targets.slots@.take(0)));
    }
    while i < targets.slots.len()
        invariant
            0 <= i <= targets.slots@.len(),
            names.deep_view() == present_names(targets.slots@.take(i as int)),
        decreases targets.slots@.len() - i,
    {
        proof {
            assert(targets.slots@.take(i + 1).drop_last() =~= targets.slots@.take(i as int));
            assert(targets.slots@.take(i + 1).last() == targets.slots@[i as int]);
        }
        let ghost old_names = names.deep_view();
        match &targets.slots[i] {
            Some(td) => {
                names.push(td.name.clone());
                proof {
                    assert(names.deep_view() =~= old_names.push(td.name@));
                }
            },
            None => {},
        }
        i = i + 1;
    }
    proof {
        assert(targets.slots@.take(targets.slots@.len() as int) =~= targets.slots@);
    }
    names
}

} // verus!
