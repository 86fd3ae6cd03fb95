//! The command interpreter and movement engine: data types, the mathematical
//! model of parsing, normalization, movement and collision checking, and the
//! executable functions proved against that model.

use vstd::prelude::*;

use crate::text::is_unicode_alphabetic;
use crate::text::is_unicode_alphanumeric;
use crate::text::upper_first_of;
use crate::text::upper_of;
use crate::text::uppercase_char;

verus! {

/// One whole simulation request: the inclusive upper-right corner of the
/// plateau (the lower-left corner is the origin) and, per rover, a starting
/// pose paired with its command string, in deployment order.
#[derive(Debug, PartialEq, Eq)]
pub struct InputCommand {
    pub ur_plateau: (i32, i32),
    pub rovers_to_deploy: Vec<(PositionAndHeading, String)>,
}

/// A rover pose: plateau cell and facing direction ('N', 'E', 'S' or 'W'
/// once normalized).
#[derive(Debug, PartialEq, Eq, Structural, Clone, Copy)]
pub struct PositionAndHeading {
    pub x: i32,
    pub y: i32,
    pub heading: char,
}

/// Every way a simulation run can fail; the first failure aborts the whole
/// run.
#[derive(Debug, PartialEq, Eq, Structural, Clone, Copy)]
pub enum RoverError {
    OutOfBounds,
    Collision,
    InvalidHeading,
    InvalidMove,
    InvalidStartMove,
    InvalidStartPosition,
    InvalidPlateau,
    InvalidNumberOfCommandsForRover,
    StartOutOfBounds,
}

/// The four canonical facing directions.
pub open spec fn is_heading(h: char) -> bool {
    h == 'N' || h == 'E' || h == 'S' || h == 'W'
}

/// The three command characters: rotate left, rotate right, move forward.
pub open spec fn is_move_char(c: char) -> bool {
    c == 'L' || c == 'R' || c == 'M'
}

/// Quarter turn to the left; any character outside the four headings is left
/// unchanged.
pub open spec fn rotate_left(h: char) -> char {
    match h {
        'N' => 'W',
        'W' => 'S',
        'S' => 'E',
        'E' => 'N',
        _ => h,
    }
}

/// Quarter turn to the right; any character outside the four headings is left
/// unchanged.
pub open spec fn rotate_right(h: char) -> char {
    match h {
        'N' => 'E',
        'E' => 'S',
        'S' => 'W',
        'W' => 'N',
        _ => h,
    }
}

/// The heading transition table: what the heading becomes when `c` is applied
/// while facing `h`. `M` never changes the heading; `L` and `R` rotate only a
/// canonical heading; anything else has no defined transition.
pub open spec fn spec_next_heading(h: char, c: char) -> Option<char> {
    if c == 'M' {
        Some(h)
    } else if c == 'L' && is_heading(h) {
        Some(rotate_left(h))
    } else if c == 'R' && is_heading(h) {
        Some(rotate_right(h))
    } else {
        None
    }
}

/// Maps the current heading and the next command character to the next
/// heading, or `None` when the pair has no defined transition.
pub fn get_next_heading(heading_and_rotation: (char, char)) -> (r: Option<char>)
    ensures
        r == spec_next_heading(heading_and_rotation.0, heading_and_rotation.1),
{
    match heading_and_rotation {
        ('N', 'L') => Some('W'),
        ('N', 'R') => Some('E'),
        ('E', 'L') => Some('N'),
        ('E', 'R') => Some('S'),
        ('S', 'L') => Some('E'),
        ('S', 'R') => Some('W'),
        ('W', 'L') => Some('S'),
        ('W', 'R') => Some('N'),
        (heading, 'M') => Some(heading),
        (_, _) => None,
    }
}

/// True exactly when the character is one of the four canonical headings.
pub fn is_valid_heading(heading: char) -> (r: bool)
    ensures
        r == is_heading(heading),
{
    matches!(heading, 'N' | 'E' | 'S' | 'W')
}

/// The ten ASCII decimal digits.
pub open spec fn is_decimal_digit(c: char) -> bool {
    48 <= c as u32 <= 57
}

/// The numeric value of an ASCII decimal digit.
pub open spec fn digit_value(c: char) -> i32
    recommends
        is_decimal_digit(c),
{
    (c as u32 - 48) as i32
}

/// The subsequence of ASCII decimal digits of `s`, in order.
pub open spec fn keep_digits(s: Seq<char>) -> Seq<char>
    decreases s.len(),
{
    if s.len() == 0 {
        s
    } else {
        let pre = keep_digits(s.drop_last());
        if is_decimal_digit(s.last()) {
            pre.push(s.last())
        } else {
            pre
        }
    }
}

/// The numeric value of `c` as a decimal digit, or `None` when `c` is not an
/// ASCII decimal digit. Mirrors what `char::to_digit` does for radix ten.
fn decimal_digit_value(c: char) -> (r: Option<i32>)
    ensures
        r == (if is_decimal_digit(c) {
            Some(digit_value(c))
        } else {
            None::<i32>
        }),
{
    let u = c as u32;
    if 48 <= u && u <= 57 {
        Some((u - 48) as i32)
    } else {
        None
    }
}

/// Extracts the plateau's upper-right corner from a raw text line: every
/// character that is not a decimal digit is discarded, and the first two
/// remaining digits are read as the single-digit bounds (max_x, max_y).
/// Multi-digit bounds cannot be expressed; this tolerant single-digit reading
/// is a deliberate limitation of the input format.
pub fn parse_user_plateau(plateau: String) -> (r: Result<(i32, i32), RoverError>)
    ensures
        r == (if keep_digits(plateau@).len() < 2 {
            Err::<(i32, i32), RoverError>(RoverError::InvalidPlateau)
        } else {
            Ok::<(i32, i32), RoverError>(
                (digit_value(keep_digits(plateau@)[0]), digit_value(keep_digits(plateau@)[1])),
            )
        }),
{
    let s = plateau.as_str();
    let n = s.unicode_len();
    let mut digits: Vec<i32> = Vec::new();
    let mut i: usize = 0;
    while i < n
        invariant
            n == s@.len(),
            0 <= i <= n,
            digits@.len() == keep_digits(s@.subrange(0, i as int)).len(),
            forall|j: int|
                0 <= j < digits@.len() ==> digits@[j] == digit_value(
                    #[trigger] keep_digits(s@.subrange(0, i as int))[j],
                ),
        decreases n - i,
    {
        let c = s.get_char(i);
        proof {
            assert(s@.subrange(0, i + 1).drop_last() =~= s@.subrange(0, i as int));
            assert(s@.subrange(0, i + 1).last() == c);
        }
        if let Some(v) = decimal_digit_value(c) {
            digits.push(v);
        }
        i = i + 1;
    }
    proof {
        assert(s@.subrange(0, n as int) =~= s@);
    }
    if digits.len() < 2 {
        Err(RoverError::InvalidPlateau)
    } else {
        Ok((digits[0], digits[1]))
    }
}

/// The model of reading a start pose from a cleaned start-spec: exactly three
/// characters, the first two ASCII decimal digits giving the coordinates, the
/// third taken as the (not yet validated) heading.
pub open spec fn spec_parse_start(s: Seq<char>) -> Result<PositionAndHeading, RoverError> {
    if s.len() != 3 {
        Err(RoverError::InvalidMove)
    } else if !is_decimal_digit(s[0]) || !is_decimal_digit(s[1]) {
        Err(RoverError::InvalidStartMove)
    } else {
        Ok(PositionAndHeading { x: digit_value(s[0]), y: digit_value(s[1]), heading: s[2] })
    }
}

/// Reads a start pose out of the characters kept from a start-spec line:
/// succeeds only on exactly three characters (digit x, digit y, heading).
pub fn parse_rover_commands(commands: Vec<char>) -> (r: Result<PositionAndHeading, RoverError>)
    ensures
        r == spec_parse_start(commands@),
{
    if commands.len() == 3 {
        let x = match decimal_digit_value(commands[0]) {
            Some(x) => x,
            None => {
                return Err(RoverError::InvalidStartMove);
            },
        };
        let y = match decimal_digit_value(commands[1]) {
            Some(y) => y,
            None => {
                return Err(RoverError::InvalidStartMove);
            },
        };
        Ok(PositionAndHeading { x, y, heading: commands[2] })
    } else {
        Err(RoverError::InvalidMove)
    }
}

/// Every character of the sequence is one of the three command letters.
pub open spec fn all_moves_valid(s: Seq<char>) -> bool {
    forall|i: int| 0 <= i < s.len() ==> is_move_char(s[i])
}

/// True exactly when every character of the string is `L`, `R` or `M`.
pub fn is_valid_move(move_to_check: &str) -> (r: bool)
    ensures
        r == all_moves_valid(move_to_check@),
{
    let n = move_to_check.unicode_len();
    let mut i: usize = 0;
    while i < n
        invariant
            n == move_to_check@.len(),
            0 <= i <= n,
            forall|j: int| 0 <= j < i ==> is_move_char(move_to_check@[j]),
        decreases n - i,
    {
        let c = move_to_check.get_char(i);
        if !(c == 'L' || c == 'R' || c == 'M') {
            return false;
        }
        i = i + 1;
    }
    true
}

/// The subsequence of Unicode-alphanumeric characters of `s`, in order.
pub open spec fn keep_alphanumeric(s: Seq<char>) -> Seq<char>
    decreases s.len(),
{
    if s.len() == 0 {
        s
    } else {
        let pre = keep_alphanumeric(s.drop_last());
        if is_unicode_alphanumeric(s.last()) {
            pre.push(s.last())
        } else {
            pre
        }
    }
}

/// The subsequence of Unicode-alphabetic characters of `s`, in order.
pub open spec fn keep_alphabetic(s: Seq<char>) -> Seq<char>
    decreases s.len(),
{
    if s.len() == 0 {
        s
    } else {
        let pre = keep_alphabetic(s.drop_last());
        if is_unicode_alphabetic(s.last()) {
            pre.push(s.last())
        } else {
            pre
        }
    }
}

/// Collects the alphanumeric characters of `s`, dropping everything else.
fn filter_alphanumeric(s: &str) -> (r: Vec<char>)
    ensures
        r@ == keep_alphanumeric(s@),
{
    let n = s.unicode_len();
    let mut kept: Vec<char> = Vec::new();
    let mut i: usize = 0;
    while i < n
        invariant
            n == s@.len(),
            0 <= i <= n,
            kept@ == keep_alphanumeric(s@.subrange(0, i as int)),
        decreases n - i,
    {
        let c = s.get_char(i);
        proof {
            assert(s@.subrange(0, i + 1).drop_last() =~= s@.subrange(0, i as int));
            assert(s@.subrange(0, i + 1).last() == c);
        }
        if c.is_alphanumeric() {
            kept.push(c);
        }
        i = i + 1;
    }
    proof {
        assert(s@.subrange(0, n as int) =~= s@);
    }
    kept
}

/// Pairs raw input lines into command batch entries. The lines are consumed
/// two at a time: the first of each pair is the rover's command string, taken
/// as is; the second is its start-spec, which is filtered to alphanumeric
/// characters and read as (digit x, digit y, heading). The collected entries
/// are emitted in reverse pair order, since callers hand the lines over as a
/// stack. An empty or odd-length input is rejected whole, and any start-spec
/// that does not parse rejects the batch with `InvalidStartPosition`.
pub fn parse_rover_to_deploy(ur_plateau: (i32, i32), rovers: Vec<String>) -> (r: Result<
    InputCommand,
    RoverError,
>)
    ensures
        (rovers@.len() == 0 || rovers@.len() % 2 != 0) <==> r == Err::<InputCommand, RoverError>(
            RoverError::InvalidNumberOfCommandsForRover,
        ),
        (rovers@.len() > 0 && rovers@.len() % 2 == 0) ==> ((r is Ok) <==> (forall|j: int|
            0 <= j < rovers@.len() / 2 ==> spec_parse_start(
                keep_alphanumeric(#[trigger] rovers@[2 * j + 1]@),
            ) is Ok)),
        (rovers@.len() > 0 && rovers@.len() % 2 == 0 && r is Err) ==> r == Err::<
            InputCommand,
            RoverError,
        >(RoverError::InvalidStartPosition),
        r is Ok ==> {
            let list = r->Ok_0.rovers_to_deploy@;
            &&& r->Ok_0.ur_plateau == ur_plateau
            &&& list.len() == rovers@.len() / 2
            &&& forall|j: int|
                0 <= j < list.len() ==> {
                    let k = rovers@.len() / 2 - 1 - j;
                    &&& (#[trigger] list[j]).0 == spec_parse_start(
                        keep_alphanumeric(rovers@[2 * k + 1]@),
                    )->Ok_0
                    &&& list[j].1 == rovers@[2 * k]
                }
        },
{
    if rovers.len() == 0 || rovers.len() % 2 != 0 {
        return Err(RoverError::InvalidNumberOfCommandsForRover);
    }
    let npairs = rovers.len() / 2;
    let mut collected: Vec<(PositionAndHeading, String)> = Vec::new();
    let mut j: usize = 0;
    while j < npairs
        invariant
            rovers@.len() <= usize::MAX,
            rovers@.len() % 2 == 0,
            npairs == rovers@.len() / 2,
            0 <= j <= npairs,
            collected@.len() == j,
            forall|k: int|
                0 <= k < j ==> spec_parse_start(
                    keep_alphanumeric(#[trigger] rovers@[2 * k + 1]@),
                ) is Ok,
            forall|k: int|
                0 <= k < j ==> (#[trigger] collected@[k]).0 == spec_parse_start(
                    keep_alphanumeric(rovers@[2 * k + 1]@),
                )->Ok_0 && collected@[k].1 == rovers@[2 * k],
        decreases npairs - j,
    {
        proof {
            assert(2 * j + 1 < rovers@.len());
        }
        let cleaned = filter_alphanumeric(rovers[2 * j + 1].as_str());
        match parse_rover_commands(cleaned) {
            Ok(start) => {
                collected.push((start, rovers[2 * j].clone()));
            },
            Err(_) => {
                return Err(RoverError::InvalidStartPosition);
            },
        }
        j = j + 1;
    }
    // The entries were collected in pair order; emit them reversed.
    let ghost full = collected@;
    let mut reversed: Vec<(PositionAndHeading, String)> = Vec::new();
    while collected.len() > 0
        invariant
            reversed@.len() + collected@.len() == full.len(),
            collected@ == full.subrange(0, collected@.len() as int),
            forall|m: int|
                0 <= m < reversed@.len() ==> #[trigger] reversed@[m] == full[full.len() - 1 - m],
        decreases collected.len(),
    {
        proof {
            assert(collected@.last() == full[collected@.len() - 1]);
            assert(full.subrange(0, collected@.len() as int).subrange(
                0,
                collected@.len() - 1,
            ) =~= full.subrange(0, collected@.len() - 1));
        }
        let entry = collected.pop().unwrap();
        reversed.push(entry);
    }
    Ok(InputCommand { ur_plateau, rovers_to_deploy: reversed })
}

/// The canonical form of a raw command string: uppercased, then stripped of
/// every character that is not alphabetic (digits, punctuation and whitespace
/// are silently dropped, not rejected).
pub open spec fn clean_commands(s: Seq<char>) -> Seq<char> {
    keep_alphabetic(upper_of(s))
}

/// The model of normalizing and validating one batch entry: the heading is
/// uppercased and the command string cleaned, then the start must lie within
/// the upper bound, the heading must be canonical, and every remaining command
/// character must be `L`, `R` or `M`, checked in that order.
pub open spec fn spec_normalize_entry(bound: (i32, i32), entry: (PositionAndHeading, String)) -> Result<
    (PositionAndHeading, Seq<char>),
    RoverError,
> {
    let h = upper_first_of(entry.0.heading);
    let cmds = clean_commands(entry.1@);
    if entry.0.x > bound.0 || entry.0.y > bound.1 {
        Err(RoverError::StartOutOfBounds)
    } else if !is_heading(h) {
        Err(RoverError::InvalidHeading)
    } else if !all_moves_valid(cmds) {
        Err(RoverError::InvalidMove)
    } else {
        Ok((PositionAndHeading { x: entry.0.x, y: entry.0.y, heading: h }, cmds))
    }
}

/// Normalizes the remaining entries in order onto the accumulator, stopping
/// at the first entry that fails validation.
pub open spec fn spec_normalize_from(
    bound: (i32, i32),
    rovers: Seq<(PositionAndHeading, String)>,
    acc: Seq<(PositionAndHeading, Seq<char>)>,
) -> Result<Seq<(PositionAndHeading, Seq<char>)>, RoverError>
    decreases rovers.len(),
{
    if rovers.len() == 0 {
        Ok(acc)
    } else {
        match spec_normalize_entry(bound, rovers[0]) {
            Err(e) => Err(e),
            Ok(ne) => spec_normalize_from(bound, rovers.drop_first(), acc.push(ne)),
        }
    }
}

/// The model of normalizing a whole batch: every entry in order, all or
/// nothing.
pub open spec fn spec_normalize_batch(bound: (i32, i32), rovers: Seq<(PositionAndHeading, String)>) -> Result<
    Seq<(PositionAndHeading, Seq<char>)>,
    RoverError,
> {
    spec_normalize_from(bound, rovers, Seq::empty())
}

/// Uppercases a raw command string and drops every non-alphabetic character.
fn clean_command_string(s: &String) -> (r: String)
    ensures
        r@ == clean_commands(s@),
{
    let upper = s.as_str().to_uppercase();
    let u = upper.as_str();
    let n = u.unicode_len();
    let mut out = String::new();
    let mut i: usize = 0;
    while i < n
        invariant
            n == u@.len(),
            u@ == upper_of(s@),
            0 <= i <= n,
            out@ == keep_alphabetic(u@.subrange(0, i as int)),
        decreases n - i,
    {
        let c = u.get_char(i);
        proof {
            assert(u@.subrange(0, i + 1).drop_last() =~= u@.subrange(0, i as int));
            assert(u@.subrange(0, i + 1).last() == c);
        }
        if c.is_alphabetic() {
            out.push(c);
        }
        i = i + 1;
    }
    proof {
        assert(u@.subrange(0, n as int) =~= u@);
    }
    out
}

/// Normalizes and validates a whole batch: uppercases each heading, cleans
/// each command string, and rejects the first entry whose start lies beyond
/// the plateau bound (`StartOutOfBounds`), whose heading is not canonical
/// (`InvalidHeading`), or whose cleaned command string holds a letter other
/// than `L`, `R` or `M` (`InvalidMove`). All entries pass or none do.
pub fn parse_input_commands(commands: InputCommand) -> (r: Result<InputCommand, RoverError>)
    ensures
        ({
            let s = spec_normalize_batch(commands.ur_plateau, commands.rovers_to_deploy@);
            &&& (r is Ok) == (s is Ok)
            &&& (r is Err ==> s == Err::<Seq<(PositionAndHeading, Seq<char>)>, RoverError>(
                r->Err_0,
            ))
            &&& (r is Ok ==> {
                let out = r->Ok_0;
                let es = s->Ok_0;
                &&& out.ur_plateau == commands.ur_plateau
                &&& out.rovers_to_deploy@.len() == es.len()
                &&& forall|i: int|
                    0 <= i < es.len() ==> (#[trigger] out.rovers_to_deploy@[i]).0 == es[i].0
                        && out.rovers_to_deploy@[i].1@ == es[i].1
            })
        }),
{
    let bound = commands.ur_plateau;
    let entries = &commands.rovers_to_deploy;
    let n = entries.len();
    let mut fixed: Vec<(PositionAndHeading, String)> = Vec::new();
    let ghost mut acc: Seq<(PositionAndHeading, Seq<char>)> = Seq::empty();
    let mut i: usize = 0;
    proof {
        assert(entries@.skip(0) =~= entries@);
    }
    while i < n
        invariant
            bound == commands.ur_plateau,
            entries@ == commands.rovers_to_deploy@,
            n == entries@.len(),
            0 <= i <= n,
            fixed@.len() == acc.len(),
            forall|k: int|
                0 <= k < acc.len() ==> (#[trigger] fixed@[k]).0 == acc[k].0 && fixed@[k].1@
                    == acc[k].1,
            spec_normalize_from(bound, entries@.skip(i as int), acc) == spec_normalize_batch(
                bound,
                entries@,
            ),
        decreases n - i,
    {
        proof {
            assert(entries@.skip(i as int)[0] == entries@[i as int]);
            assert(entries@.skip(i as int).drop_first() =~= entries@.skip(i + 1));
        }
        let entry = &entries[i];
        let heading = uppercase_char(entry.0.heading);
        let cleaned = clean_command_string(&entry.1);
        if entry.0.x > bound.0 || entry.0.y > bound.1 {
            return Err(RoverError::StartOutOfBounds);
        }
        if !is_valid_heading(heading) {
            return Err(RoverError::InvalidHeading);
        }
        if !is_valid_move(cleaned.as_str()) {
            return Err(RoverError::InvalidMove);
        }
        let start = PositionAndHeading { x: entry.0.x, y: entry.0.y, heading };
        proof {
            acc = acc.push((start, cleaned@));
        }
        fixed.push((start, cleaned));
        i = i + 1;
    }
    proof {
        assert(entries@.skip(n as int) =~= Seq::<(PositionAndHeading, String)>::empty());
    }
    Ok(InputCommand { ur_plateau: bound, rovers_to_deploy: fixed })
}

/// The model of one command character applied to a pose. Rotation changes the
/// heading alone. `M` additionally moves one cell in the (unchanged) heading's
/// direction: north and east are blocked at the plateau's upper bound, south
/// and west at the origin, and a blocked move fails with `OutOfBounds`. A
/// character with no defined transition is skipped.
pub open spec fn spec_step(bound: (i32, i32), p: PositionAndHeading, c: char) -> Result<
    PositionAndHeading,
    RoverError,
> {
    match spec_next_heading(p.heading, c) {
        None => Ok(p),
        Some(h) => {
            if c == 'M' {
                if h == 'N' {
                    if p.y < bound.1 {
                        Ok(PositionAndHeading { x: p.x, y: (p.y + 1) as i32, heading: h })
                    } else {
                        Err(RoverError::OutOfBounds)
                    }
                } else if h == 'E' {
                    if p.x < bound.0 {
                        Ok(PositionAndHeading { x: (p.x + 1) as i32, y: p.y, heading: h })
                    } else {
                        Err(RoverError::OutOfBounds)
                    }
                } else if h == 'S' {
                    if p.y > 0 {
                        Ok(PositionAndHeading { x: p.x, y: (p.y - 1) as i32, heading: h })
                    } else {
                        Err(RoverError::OutOfBounds)
                    }
                } else if h == 'W' {
                    if p.x > 0 {
                        Ok(PositionAndHeading { x: (p.x - 1) as i32, y: p.y, heading: h })
                    } else {
                        Err(RoverError::OutOfBounds)
                    }
                } else {
                    Ok(PositionAndHeading { x: p.x, y: p.y, heading: h })
                }
            } else {
                Ok(PositionAndHeading { x: p.x, y: p.y, heading: h })
            }
        },
    }
}

/// The model of running a whole command sequence from a pose, stopping at the
/// first blocked move.
pub open spec fn spec_run(bound: (i32, i32), p: PositionAndHeading, cmds: Seq<char>) -> Result<
    PositionAndHeading,
    RoverError,
>
    decreases cmds.len(),
{
    if cmds.len() == 0 {
        Ok(p)
    } else {
        match spec_step(bound, p, cmds[0]) {
            Ok(q) => spec_run(bound, q, cmds.drop_first()),
            Err(e) => Err(e),
        }
    }
}

/// Some already finalized rover rests on the cell of `p`.
pub open spec fn occupies(done: Seq<PositionAndHeading>, p: PositionAndHeading) -> bool {
    exists|i: int| 0 <= i < done.len() && done[i].x == p.x && done[i].y == p.y
}

/// The model of executing the remaining normalized entries in order, on top of
/// the rovers finalized so far: each rover runs its full command sequence,
/// then its resting cell must differ from every earlier rover's. The first
/// blocked move or collision aborts the whole run.
pub open spec fn spec_execute(
    bound: (i32, i32),
    entries: Seq<(PositionAndHeading, Seq<char>)>,
    done: Seq<PositionAndHeading>,
) -> Result<Seq<PositionAndHeading>, RoverError>
    decreases entries.len(),
{
    if entries.len() == 0 {
        Ok(done)
    } else {
        match spec_run(bound, entries[0].0, entries[0].1) {
            Err(e) => Err(e),
            Ok(fin) => if occupies(done, fin) {
                Err(RoverError::Collision)
            } else {
                spec_execute(bound, entries.drop_first(), done.push(fin))
            },
        }
    }
}

/// The model of a whole simulation: normalize and validate the batch, then
/// execute it entry by entry with collision checks.
pub open spec fn spec_simulate(bound: (i32, i32), rovers: Seq<(PositionAndHeading, String)>) -> Result<
    Seq<PositionAndHeading>,
    RoverError,
> {
    match spec_normalize_batch(bound, rovers) {
        Err(e) => Err(e),
        Ok(entries) => spec_execute(bound, entries, Seq::empty()),
    }
}

/// True exactly when no already finalized rover rests on the new rover's
/// cell; headings are not compared.
pub fn will_not_collide(
    new_rover_position: &PositionAndHeading,
    current_rover_positions: &[PositionAndHeading],
) -> (r: bool)
    ensures
        r == !occupies(current_rover_positions@, *new_rover_position),
{
    let n = current_rover_positions.len();
    let mut i: usize = 0;
    while i < n
        invariant
            n == current_rover_positions@.len(),
            0 <= i <= n,
            forall|j: int|
                0 <= j < i ==> !((#[trigger] current_rover_positions@[j]).x
                    == new_rover_position.x && current_rover_positions@[j].y
                    == new_rover_position.y),
        decreases n - i,
    {
        if current_rover_positions[i].x == new_rover_position.x && current_rover_positions[i].y
            == new_rover_position.y {
            return false;
        }
        i = i + 1;
    }
    true
}

/// Runs one rover's cleaned command string from its start pose, one character
/// at a time, enforcing the plateau bound at every move.
fn run_rover(bound: (i32, i32), start: PositionAndHeading, cmds: &String) -> (r: Result<
    PositionAndHeading,
    RoverError,
>)
    ensures
        r == spec_run(bound, start, cmds@),
{
    let s = cmds.as_str();
    let n = s.unicode_len();
    let mut current = start;
    let mut i: usize = 0;
    proof {
        assert(s@.skip(0) =~= s@);
    }
    while i < n
        invariant
            n == s@.len(),
            s@ == cmds@,
            0 <= i <= n,
            spec_run(bound, current, s@.skip(i as int)) == spec_run(bound, start, cmds@),
        decreases n - i,
    {
        let c = s.get_char(i);
        proof {
            assert(s@.skip(i as int)[0] == c);
            assert(s@.skip(i as int).drop_first() =~= s@.skip(i + 1));
        }
        let next_heading = get_next_heading((current.heading, c));
        if let Some(next_heading) = next_heading {
            current.heading = next_heading;
            if c == 'M' {
                match next_heading {
                    'N' => {
                        if current.y < bound.1 {
                            current.y = current.y + 1;
                        } else {
                            return Err(RoverError::OutOfBounds);
                        }
                    },
                    'E' => {
                        if current.x < bound.0 {
                            current.x = current.x + 1;
                        } else {
                            return Err(RoverError::OutOfBounds);
                        }
                    },
                    'S' => {
                        if current.y > 0 {
                            current.y = current.y - 1;
                        } else {
                            return Err(RoverError::OutOfBounds);
                        }
                    },
                    'W' => {
                        if current.x > 0 {
                            current.x = current.x - 1;
                        } else {
                            return Err(RoverError::OutOfBounds);
                        }
                    },
                    _ => {},
                }
            }
        }
        i = i + 1;
    }
    Ok(current)
}

/// Runs a whole simulation: normalizes and validates the batch, then deploys
/// each rover in input order, moving it step by step under the boundary check
/// and, once its command string is exhausted, checking its resting cell
/// against every rover finalized before it. Returns the final poses in input
/// order, or the first error, in which case any partial output is discarded.
pub fn simulate_rover_move(input_command: InputCommand) -> (r: Result<
    Vec<PositionAndHeading>,
    RoverError,
>)
    ensures
        ({
            let s = spec_simulate(input_command.ur_plateau, input_command.rovers_to_deploy@);
            &&& (r is Ok) == (s is Ok)
            &&& (r is Err ==> s == Err::<Seq<PositionAndHeading>, RoverError>(r->Err_0))
            &&& (r is Ok ==> r->Ok_0@ == s->Ok_0)
        }),
{
    let ghost bound0 = input_command.ur_plateau;
    let ghost rovers0 = input_command.rovers_to_deploy@;
    let normalized = match parse_input_commands(input_command) {
        Ok(normalized) => normalized,
        Err(e) => {
            return Err(e);
        },
    };
    let ghost es = spec_normalize_batch(bound0, rovers0)->Ok_0;
    let bound = normalized.ur_plateau;
    let entries = &normalized.rovers_to_deploy;
    let n = entries.len();
    let mut output: Vec<PositionAndHeading> = Vec::new();
    let mut i: usize = 0;
    proof {
        assert(es.skip(0) =~= es);
    }
    while i < n
        invariant
            bound0 == input_command.ur_plateau,
            rovers0 == input_command.rovers_to_deploy@,
            bound == bound0,
            entries@.len() == es.len(),
            forall|k: int|
                0 <= k < es.len() ==> (#[trigger] entries@[k]).0 == es[k].0 && entries@[k].1@
                    == es[k].1,
            n == entries@.len(),
            0 <= i <= n,
            spec_execute(bound, es.skip(i as int), output@) == spec_execute(
                bound,
                es,
                Seq::empty(),
            ),
            spec_simulate(bound0, rovers0) == spec_execute(bound, es, Seq::empty()),
        decreases n - i,
    {
        proof {
            assert(es.skip(i as int)[0] == es[i as int]);
            assert(es.skip(i as int).drop_first() =~= es.skip(i + 1));
        }
        let entry = &entries[i];
        let finished = match run_rover(bound, entry.0, &entry.1) {
            Ok(finished) => finished,
            Err(e) => {
                return Err(e);
            },
        };
        if will_not_collide(&finished, output.as_slice()) {
            output.push(finished);
        } else {
            return Err(RoverError::Collision);
        }
        i = i + 1;
    }
    proof {
        assert(es.skip(n as int) =~= Seq::<(PositionAndHeading, Seq<char>)>::empty());
    }
    Ok(output)
}

} // verus!
