//! The pet's three lines in the pinned area: its name, its sprite and its
//! needs bars. How full each bar is the host works out from the pet's
//! fractional needs.
use vstd::prelude::*;
use crate::text::{append_str, fit_line, fit_text, push_char, push_repeat, repeat};

verus! {

/// What the pinned area shows of the pet: its name and how many cells of
/// each needs bar are full.
pub struct PetBars {
    pub name: String,
    pub hunger: usize,
    pub happiness: usize,
    pub energy: usize,
}

/// A needs bar: `filled` full cells, then empty cells up to five in all.
pub open spec fn bar_text(filled: nat) -> Seq<char> {
    seq!['['] + repeat('█', filled) + repeat('░', if filled < 5 { (5 - filled) as nat } else { 0 })
        + seq![']']
}

/// The status line: the hunger, happiness and energy bars.
pub open spec fn status_text(hunger: nat, happiness: nat, energy: nat) -> Seq<char> {
    seq!['H'] + bar_text(hunger) + seq![' ', 'J'] + bar_text(happiness) + seq![' ', 'E']
        + bar_text(energy)
}

/// The pet's lines: name and a space, the frame, the status line, each cut
/// or padded to `cols`.
pub open spec fn pet_lines(pet: PetBars, frame: Seq<char>, cols: nat) -> Seq<Seq<char>> {
    seq![
        fit_text(pet.name@ + seq![' '], cols),
        fit_text(frame, cols),
        fit_text(status_text(pet.hunger as nat, pet.happiness as nat, pet.energy as nat), cols),
    ]
}

/// Each of the pet's lines is exactly `cols` characters wide.
pub proof fn lemma_pet_lines_width(pet: PetBars, frame: Seq<char>, cols: nat)
    ensures
        pet_lines(pet, frame, cols).len() == 3,
        forall|i: int| 0 <= i < 3 ==> (#[trigger] pet_lines(pet, frame, cols)[i]).len() == cols,
{
    let ls = pet_lines(pet, frame, cols);
    assert forall|i: int| 0 <= i < 3 implies (#[trigger] pet_lines(pet, frame, cols)[i]).len() == cols by {
        let t = if i == 0 {
            pet.name@ + seq![' ']
        } else if i == 1 {
            frame
        } else {
            status_text(pet.hunger as nat, pet.happiness as nat, pet.energy as nat)
        };
        assert(ls[i] == fit_text(t, cols));
    }
}

/// Appends a needs bar (see `bar_text`).
fn push_bar(s: &mut String, filled: usize)
    ensures
        final(s)@ == old(s)@ + bar_text(filled as nat),
{
    let ghost start = s@;
    push_char(s, '[');
    push_repeat(s, '█', filled);
    push_repeat(s, '░', if filled < 5 { 5 - filled } else { 0 });
    push_char(s, ']');
    assert(s@ =~= start + bar_text(filled as nat));
}

/// The pet's three lines (see `pet_lines`).
pub fn render_pet(pet: &PetBars, frame: &str, cols: usize) -> (r: Vec<String>)
    ensures
        r@.map_values(|l: String| l@) == pet_lines(*pet, frame@, cols as nat),
{
    let mut name = String::new();
    append_str(&mut name, pet.name.as_str());
    push_char(&mut name, ' ');
    assert(name@ =~= pet.name@ + seq![' ']);
    let mut status = String::new();
    push_char(&mut status, 'H');
    push_bar(&mut status, pet.hunger);
    push_char(&mut status, ' ');
    push_char(&mut status, 'J');
    push_bar(&mut status, pet.happiness);
    push_char(&mut status, ' ');
    push_char(&mut status, 'E');
    push_bar(&mut status, pet.energy);
    assert(status@ =~= status_text(pet.hunger as nat, pet.happiness as nat, pet.energy as nat));
    let l0 = fit_line(name.as_str(), cols);
    let l1 = fit_line(frame, cols);
    let l2 = fit_line(status.as_str(), cols);
    let mut r: Vec<String> = Vec::new();
    r.push(l0);
    r.push(l1);
    r.push(l2);
    let ghost want = pet_lines(*pet, frame@, cols as nat);
    assert(r@.map_values(|l: String| l@)[0] == want[0]);
    assert(r@.map_values(|l: String| l@)[1] == want[1]);
    assert(r@.map_values(|l: String| l@)[2] == want[2]);
    assert(r@.map_values(|l: String| l@) =~= pet_lines(*pet, frame@, cols as nat));
    r
}

} // verus!
