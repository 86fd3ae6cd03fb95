//! General laws of the movement engine and the simulator, stated over the
//! spec-level model and proved once and for all: rotation periodicity, the
//! four-left-turns round trip, position invariance of rotation-only command
//! strings, the exact boundary behaviour of a forward move, the collision of
//! identical rovers, and the invariants of the final output list.

use vstd::prelude::*;

use crate::rover::PositionAndHeading;
use crate::rover::RoverError;
use crate::rover::is_heading;
use crate::rover::occupies;
use crate::rover::rotate_left;
use crate::rover::rotate_right;
use crate::rover::spec_execute;
use crate::rover::spec_normalize_batch;
use crate::rover::spec_normalize_entry;
use crate::rover::spec_normalize_from;
use crate::rover::spec_run;
use crate::rover::spec_simulate;
use crate::rover::spec_step;

verus! {

/// The heading after `n` quarter turns to the left.
pub open spec fn rotate_left_n(h: char, n: nat) -> char
    decreases n,
{
    if n == 0 {
        h
    } else {
        rotate_left_n(rotate_left(h), (n - 1) as nat)
    }
}

/// The heading after `n` quarter turns to the right.
pub open spec fn rotate_right_n(h: char, n: nat) -> char
    decreases n,
{
    if n == 0 {
        h
    } else {
        rotate_right_n(rotate_right(h), (n - 1) as nat)
    }
}

/// Turning left visits all four headings before returning to the start: the
/// cycle N, W, S, E has period exactly four.
pub proof fn lemma_left_rotation_cycle(h: char)
    requires
        is_heading(h),
    ensures
        rotate_left_n(h, 4) == h,
        rotate_left_n(h, 1) != h,
        rotate_left_n(h, 2) != h,
        rotate_left_n(h, 3) != h,
{
    reveal_with_fuel(rotate_left_n, 5);
}

/// Turning right visits all four headings before returning to the start: the
/// cycle N, E, S, W has period exactly four.
pub proof fn lemma_right_rotation_cycle(h: char)
    requires
        is_heading(h),
    ensures
        rotate_right_n(h, 4) == h,
        rotate_right_n(h, 1) != h,
        rotate_right_n(h, 2) != h,
        rotate_right_n(h, 3) != h,
{
    reveal_with_fuel(rotate_right_n, 5);
}

/// Four more left turns land on the same heading.
pub proof fn lemma_left_four_more(h: char, n: nat)
    requires
        is_heading(h),
    ensures
        rotate_left_n(h, n + 4) == rotate_left_n(h, n),
    decreases n,
{
    if n == 0 {
        lemma_left_rotation_cycle(h);
        reveal_with_fuel(rotate_left_n, 5);
    } else {
        lemma_left_four_more(rotate_left(h), (n - 1) as nat);
    }
}

/// Four more right turns land on the same heading.
pub proof fn lemma_right_four_more(h: char, n: nat)
    requires
        is_heading(h),
    ensures
        rotate_right_n(h, n + 4) == rotate_right_n(h, n),
    decreases n,
{
    if n == 0 {
        lemma_right_rotation_cycle(h);
        reveal_with_fuel(rotate_right_n, 5);
    } else {
        lemma_right_four_more(rotate_right(h), (n - 1) as nat);
    }
}

/// Left turns cycle with period four: only the turn count modulo four matters.
pub proof fn lemma_left_rotation_period(h: char, n: nat)
    requires
        is_heading(h),
    ensures
        rotate_left_n(h, n) == rotate_left_n(h, n % 4),
    decreases n,
{
    if n >= 4 {
        lemma_left_four_more(h, (n - 4) as nat);
        lemma_left_rotation_period(h, (n - 4) as nat);
    }
}

/// Right turns cycle with period four: only the turn count modulo four
/// matters.
pub proof fn lemma_right_rotation_period(h: char, n: nat)
    requires
        is_heading(h),
    ensures
        rotate_right_n(h, n) == rotate_right_n(h, n % 4),
    decreases n,
{
    if n >= 4 {
        lemma_right_four_more(h, (n - 4) as nat);
        lemma_right_rotation_period(h, (n - 4) as nat);
    }
}

/// A run made of left turns alone never fails, never moves the rover, and
/// leaves the heading rotated once to the left per command.
pub proof fn lemma_run_of_left_turns(bound: (i32, i32), p: PositionAndHeading, cmds: Seq<char>)
    requires
        forall|i: int| 0 <= i < cmds.len() ==> cmds[i] == 'L',
    ensures
        spec_run(bound, p, cmds) == Ok::<PositionAndHeading, RoverError>(
            (PositionAndHeading { x: p.x, y: p.y, heading: rotate_left_n(p.heading, cmds.len()) }),
        ),
    decreases cmds.len(),
{
    if cmds.len() == 0 {
        assert(PositionAndHeading { x: p.x, y: p.y, heading: p.heading } == p);
    } else {
        assert(cmds[0] == 'L');
        let p2 = PositionAndHeading { x: p.x, y: p.y, heading: rotate_left(p.heading) };
        if !is_heading(p.heading) {
            assert(p2 == p);
        }
        assert(spec_step(bound, p, 'L') == Ok::<PositionAndHeading, RoverError>(p2));
        assert(forall|i: int|
            0 <= i < cmds.drop_first().len() ==> #[trigger] cmds.drop_first()[i] == cmds[i + 1]);
        lemma_run_of_left_turns(bound, p2, cmds.drop_first());
    }
}

/// A run made of right turns alone never fails, never moves the rover, and
/// leaves the heading rotated once to the right per command.
pub proof fn lemma_run_of_right_turns(bound: (i32, i32), p: PositionAndHeading, cmds: Seq<char>)
    requires
        forall|i: int| 0 <= i < cmds.len() ==> cmds[i] == 'R',
    ensures
        spec_run(bound, p, cmds) == Ok::<PositionAndHeading, RoverError>(
            (PositionAndHeading {
                x: p.x,
                y: p.y,
                heading: rotate_right_n(p.heading, cmds.len()),
            }),
        ),
    decreases cmds.len(),
{
    if cmds.len() == 0 {
        assert(PositionAndHeading { x: p.x, y: p.y, heading: p.heading } == p);
    } else {
        assert(cmds[0] == 'R');
        let p2 = PositionAndHeading { x: p.x, y: p.y, heading: rotate_right(p.heading) };
        if !is_heading(p.heading) {
            assert(p2 == p);
        }
        assert(spec_step(bound, p, 'R') == Ok::<PositionAndHeading, RoverError>(p2));
        assert(forall|i: int|
            0 <= i < cmds.drop_first().len() ==> #[trigger] cmds.drop_first()[i] == cmds[i + 1]);
        lemma_run_of_right_turns(bound, p2, cmds.drop_first());
    }
}

/// Round trip: executing `L` four times returns any rover to its original
/// heading and position.
pub proof fn lemma_left_four_round_trip(bound: (i32, i32), p: PositionAndHeading)
    ensures
        spec_run(bound, p, seq!['L', 'L', 'L', 'L']) == Ok::<PositionAndHeading, RoverError>(p),
{
    let cmds = seq!['L', 'L', 'L', 'L'];
    assert(forall|i: int| 0 <= i < cmds.len() ==> cmds[i] == 'L');
    lemma_run_of_left_turns(bound, p, cmds);
    if is_heading(p.heading) {
        lemma_left_rotation_cycle(p.heading);
    } else {
        reveal_with_fuel(rotate_left_n, 5);
    }
    assert(PositionAndHeading { x: p.x, y: p.y, heading: rotate_left_n(p.heading, 4) } == p);
}

/// A command string without `M` never changes the position, whatever rotations
/// it performs, and never fails.
pub proof fn lemma_rotations_keep_position(
    bound: (i32, i32),
    p: PositionAndHeading,
    cmds: Seq<char>,
)
    requires
        forall|i: int| 0 <= i < cmds.len() ==> cmds[i] != 'M',
    ensures
        spec_run(bound, p, cmds) is Ok,
        spec_run(bound, p, cmds)->Ok_0.x == p.x,
        spec_run(bound, p, cmds)->Ok_0.y == p.y,
    decreases cmds.len(),
{
    if cmds.len() > 0 {
        assert(cmds[0] != 'M');
        let step = spec_step(bound, p, cmds[0]);
        assert(step is Ok && step->Ok_0.x == p.x && step->Ok_0.y == p.y);
        assert(forall|i: int|
            0 <= i < cmds.drop_first().len() ==> #[trigger] cmds.drop_first()[i] == cmds[i + 1]);
        lemma_rotations_keep_position(bound, step->Ok_0, cmds.drop_first());
    }
}

/// A rover on the plateau's east edge cannot move east: a single `M` fails
/// with `OutOfBounds`.
pub proof fn lemma_boundary_east_blocked(bound: (i32, i32), p: PositionAndHeading)
    requires
        p.heading == 'E',
        p.x == bound.0,
    ensures
        spec_run(bound, p, seq!['M']) == Err::<PositionAndHeading, RoverError>(
            RoverError::OutOfBounds,
        ),
{
    let cmds = seq!['M'];
    assert(cmds[0] == 'M');
}

/// A rover one cell short of the east edge moves onto it: a single `M`
/// succeeds and lands exactly on the edge.
pub proof fn lemma_boundary_east_reaches_edge(bound: (i32, i32), p: PositionAndHeading)
    requires
        p.heading == 'E',
        p.x + 1 == bound.0,
    ensures
        spec_run(bound, p, seq!['M']) == Ok::<PositionAndHeading, RoverError>(
            (PositionAndHeading { x: bound.0, y: p.y, heading: 'E' }),
        ),
{
    let cmds = seq!['M'];
    assert(cmds[0] == 'M');
    let q = PositionAndHeading { x: bound.0, y: p.y, heading: 'E' };
    assert(spec_step(bound, p, 'M') == Ok::<PositionAndHeading, RoverError>(q));
    assert(cmds.drop_first() =~= Seq::<char>::empty());
    assert(spec_run(bound, q, Seq::<char>::empty()) == Ok::<PositionAndHeading, RoverError>(q));
}

/// Two rovers with the same start pose and the same command string collide:
/// provided the shared entry passes validation and its run stays on the
/// plateau (a run that leaves the plateau fails earlier, with `OutOfBounds`),
/// the second rover must finalize on the first one's cell, and the whole
/// simulation fails with `Collision`.
pub proof fn lemma_identical_rovers_collide(bound: (i32, i32), entry: (PositionAndHeading, String))
    requires
        spec_normalize_entry(bound, entry) is Ok,
        spec_run(
            bound,
            spec_normalize_entry(bound, entry)->Ok_0.0,
            spec_normalize_entry(bound, entry)->Ok_0.1,
        ) is Ok,
    ensures
        spec_simulate(bound, seq![entry, entry]) == Err::<Seq<PositionAndHeading>, RoverError>(
            RoverError::Collision,
        ),
{
    let rovers = seq![entry, entry];
    let ne = spec_normalize_entry(bound, entry)->Ok_0;
    let fin = spec_run(bound, ne.0, ne.1)->Ok_0;
    assert(rovers.drop_first() =~= seq![entry]);
    assert(seq![entry].drop_first() =~= Seq::<(PositionAndHeading, String)>::empty());
    let acc1 = Seq::<(PositionAndHeading, Seq<char>)>::empty().push(ne);
    assert(spec_normalize_from(bound, rovers, Seq::empty()) == spec_normalize_from(
        bound,
        seq![entry],
        acc1,
    ));
    assert(seq![entry][0] == entry);
    assert(spec_normalize_from(bound, seq![entry], acc1) == spec_normalize_from(
        bound,
        Seq::<(PositionAndHeading, String)>::empty(),
        acc1.push(ne),
    ));
    assert(spec_normalize_batch(bound, rovers) == Ok::<
        Seq<(PositionAndHeading, Seq<char>)>,
        RoverError,
    >(acc1.push(ne)));
    let entries = acc1.push(ne);
    assert(entries[0] == ne && entries[1] == ne);
    assert(!occupies(Seq::<PositionAndHeading>::empty(), fin));
    assert(entries.drop_first() =~= seq![ne]);
    let done1 = Seq::<PositionAndHeading>::empty().push(fin);
    assert(spec_execute(bound, entries, Seq::empty()) == spec_execute(bound, seq![ne], done1));
    assert(done1[0] == fin);
    assert(occupies(done1, fin));
    assert(spec_execute(bound, seq![ne], done1) == Err::<Seq<PositionAndHeading>, RoverError>(
        RoverError::Collision,
    ));
}

/// No two rovers of a finalized output list rest on the same cell.
pub open spec fn distinct_cells(ps: Seq<PositionAndHeading>) -> bool {
    forall|i: int, j: int|
        0 <= i < j < ps.len() ==> !((#[trigger] ps[i]).x == (#[trigger] ps[j]).x && ps[i].y
            == ps[j].y)
}

/// Every pose of the list lies on the plateau.
pub open spec fn all_in_bounds(bound: (i32, i32), ps: Seq<PositionAndHeading>) -> bool {
    forall|i: int|
        0 <= i < ps.len() ==> 0 <= (#[trigger] ps[i]).x <= bound.0 && 0 <= ps[i].y <= bound.1
}

/// Execution preserves cell distinctness: starting from an output list whose
/// cells are pairwise distinct, the collision check keeps them so.
pub proof fn lemma_execute_distinct_cells(
    bound: (i32, i32),
    entries: Seq<(PositionAndHeading, Seq<char>)>,
    done: Seq<PositionAndHeading>,
)
    requires
        distinct_cells(done),
    ensures
        spec_execute(bound, entries, done) is Ok ==> distinct_cells(
            spec_execute(bound, entries, done)->Ok_0,
        ),
    decreases entries.len(),
{
    if entries.len() > 0 {
        match spec_run(bound, entries[0].0, entries[0].1) {
            Err(_) => {},
            Ok(fin) => {
                if !occupies(done, fin) {
                    let pushed = done.push(fin);
                    assert forall|i: int, j: int| 0 <= i < j < pushed.len() implies !((
                    #[trigger] pushed[i]).x == (#[trigger] pushed[j]).x && pushed[i].y
                        == pushed[j].y) by {
                        if j == done.len() {
                            assert(pushed[i] == done[i]);
                            assert(!(done[i].x == fin.x && done[i].y == fin.y));
                        } else {
                            assert(pushed[i] == done[i] && pushed[j] == done[j]);
                        }
                    }
                    lemma_execute_distinct_cells(bound, entries.drop_first(), pushed);
                }
            },
        }
    }
}

/// The cells of a successful simulation's output are pairwise distinct.
pub proof fn lemma_simulate_cells_distinct(
    bound: (i32, i32),
    rovers: Seq<(PositionAndHeading, String)>,
)
    ensures
        spec_simulate(bound, rovers) is Ok ==> distinct_cells(spec_simulate(bound, rovers)->Ok_0),
{
    if spec_normalize_batch(bound, rovers) is Ok {
        let entries = spec_normalize_batch(bound, rovers)->Ok_0;
        lemma_execute_distinct_cells(bound, entries, Seq::empty());
    }
}

/// Normalization keeps the batch size: one normalized entry per raw entry.
pub proof fn lemma_normalize_len(
    bound: (i32, i32),
    rovers: Seq<(PositionAndHeading, String)>,
    acc: Seq<(PositionAndHeading, Seq<char>)>,
)
    ensures
        spec_normalize_from(bound, rovers, acc) is Ok ==> spec_normalize_from(
            bound,
            rovers,
            acc,
        )->Ok_0.len() == acc.len() + rovers.len(),
    decreases rovers.len(),
{
    if rovers.len() > 0 {
        match spec_normalize_entry(bound, rovers[0]) {
            Err(_) => {},
            Ok(ne) => {
                lemma_normalize_len(bound, rovers.drop_first(), acc.push(ne));
            },
        }
    }
}

/// Execution finalizes every entry it is given: one output pose per entry, on
/// top of those already finalized.
pub proof fn lemma_execute_len(
    bound: (i32, i32),
    entries: Seq<(PositionAndHeading, Seq<char>)>,
    done: Seq<PositionAndHeading>,
)
    ensures
        spec_execute(bound, entries, done) is Ok ==> spec_execute(
            bound,
            entries,
            done,
        )->Ok_0.len() == done.len() + entries.len(),
    decreases entries.len(),
{
    if entries.len() > 0 {
        match spec_run(bound, entries[0].0, entries[0].1) {
            Err(_) => {},
            Ok(fin) => {
                if !occupies(done, fin) {
                    lemma_execute_len(bound, entries.drop_first(), done.push(fin));
                }
            },
        }
    }
}

/// A successful simulation reports exactly one final pose per rover, in input
/// order.
pub proof fn lemma_simulate_output_len(
    bound: (i32, i32),
    rovers: Seq<(PositionAndHeading, String)>,
)
    ensures
        spec_simulate(bound, rovers) is Ok ==> spec_simulate(bound, rovers)->Ok_0.len()
            == rovers.len(),
{
    lemma_normalize_len(bound, rovers, Seq::empty());
    if spec_normalize_batch(bound, rovers) is Ok {
        let entries = spec_normalize_batch(bound, rovers)->Ok_0;
        lemma_execute_len(bound, entries, Seq::empty());
    }
}

/// A run that starts on the plateau stays on it: the boundary check at every
/// forward move keeps each intermediate and the final pose within
/// [0, max_x] x [0, max_y].
pub proof fn lemma_run_stays_in_bounds(
    bound: (i32, i32),
    p: PositionAndHeading,
    cmds: Seq<char>,
)
    requires
        0 <= p.x <= bound.0,
        0 <= p.y <= bound.1,
    ensures
        spec_run(bound, p, cmds) is Ok ==> {
            let q = spec_run(bound, p, cmds)->Ok_0;
            0 <= q.x <= bound.0 && 0 <= q.y <= bound.1
        },
    decreases cmds.len(),
{
    if cmds.len() > 0 {
        match spec_step(bound, p, cmds[0]) {
            Err(_) => {},
            Ok(q) => {
                lemma_run_stays_in_bounds(bound, q, cmds.drop_first());
            },
        }
    }
}

/// Execution keeps every finalized pose on the plateau, provided each entry
/// starts on it.
pub proof fn lemma_execute_stays_in_bounds(
    bound: (i32, i32),
    entries: Seq<(PositionAndHeading, Seq<char>)>,
    done: Seq<PositionAndHeading>,
)
    requires
        all_in_bounds(bound, done),
        forall|i: int|
            0 <= i < entries.len() ==> 0 <= (#[trigger] entries[i]).0.x <= bound.0 && 0
                <= entries[i].0.y <= bound.1,
    ensures
        spec_execute(bound, entries, done) is Ok ==> all_in_bounds(
            bound,
            spec_execute(bound, entries, done)->Ok_0,
        ),
    decreases entries.len(),
{
    if entries.len() > 0 {
        match spec_run(bound, entries[0].0, entries[0].1) {
            Err(_) => {},
            Ok(fin) => {
                if !occupies(done, fin) {
                    lemma_run_stays_in_bounds(bound, entries[0].0, entries[0].1);
                    let pushed = done.push(fin);
                    assert(all_in_bounds(bound, pushed)) by {
                        assert(forall|i: int|
                            0 <= i < done.len() ==> #[trigger] pushed[i] == done[i]);
                        assert(pushed[done.len() as int] == fin);
                    }
                    lemma_execute_stays_in_bounds(bound, entries.drop_first(), pushed);
                }
            },
        }
    }
}

/// Every pose a successful simulation reports lies on the plateau, provided no
/// rover starts at a negative coordinate. (Validation rejects starts beyond
/// the upper bound but does not reject negative ones, so the lower bound must
/// come from the caller.)
pub proof fn lemma_simulate_stays_in_bounds(
    bound: (i32, i32),
    rovers: Seq<(PositionAndHeading, String)>,
)
    requires
        forall|i: int|
            0 <= i < rovers.len() ==> (#[trigger] rovers[i]).0.x >= 0 && rovers[i].0.y >= 0,
    ensures
        spec_simulate(bound, rovers) is Ok ==> all_in_bounds(
            bound,
            spec_simulate(bound, rovers)->Ok_0,
        ),
{
    lemma_normalize_starts_in_bounds(bound, rovers, Seq::empty());
    if spec_normalize_batch(bound, rovers) is Ok {
        let entries = spec_normalize_batch(bound, rovers)->Ok_0;
        lemma_execute_stays_in_bounds(bound, entries, Seq::empty());
    }
}

/// Validation puts every accepted start on the plateau: it checks the upper
/// bound itself, and keeps the given coordinates unchanged, so nonnegative
/// starts come out in bounds.
pub proof fn lemma_normalize_starts_in_bounds(
    bound: (i32, i32),
    rovers: Seq<(PositionAndHeading, String)>,
    acc: Seq<(PositionAndHeading, Seq<char>)>,
)
    requires
        forall|i: int|
            0 <= i < rovers.len() ==> (#[trigger] rovers[i]).0.x >= 0 && rovers[i].0.y >= 0,
        forall|i: int|
            0 <= i < acc.len() ==> 0 <= (#[trigger] acc[i]).0.x <= bound.0 && 0 <= acc[i].0.y
                <= bound.1,
    ensures
        spec_normalize_from(bound, rovers, acc) is Ok ==> forall|i: int|
            0 <= i < spec_normalize_from(bound, rovers, acc)->Ok_0.len() ==> 0 <= (
            #[trigger] spec_normalize_from(bound, rovers, acc)->Ok_0[i]).0.x <= bound.0 && 0
                <= spec_normalize_from(bound, rovers, acc)->Ok_0[i].0.y <= bound.1,
    decreases rovers.len(),
{
    if rovers.len() > 0 {
        match spec_normalize_entry(bound, rovers[0]) {
            Err(_) => {},
            Ok(ne) => {
                let pushed = acc.push(ne);
                assert(forall|i: int| 0 <= i < acc.len() ==> #[trigger] pushed[i] == acc[i]);
                assert(pushed[acc.len() as int] == ne);
                assert(forall|i: int|
                    0 <= i < rovers.drop_first().len() ==> #[trigger] rovers.drop_first()[i]
                        == rovers[i + 1]);
                lemma_normalize_starts_in_bounds(bound, rovers.drop_first(), pushed);
            },
        }
    }
}

} // verus!
