use vstd::prelude::*;

use crate::enemy::{lemma_step_keeps_settled, settled, step, step_fits, Enemy, EnemyModel};
use crate::render::{int_text, nat_text, push_int, push_nat};

verus! {

/// Width of the simulated world.
pub const WORLD_WIDTH: i32 = 100;

/// Height of the simulated world.
pub const WORLD_HEIGHT: i32 = 50;

/// Number of ticks the simulation runs for.
pub const TICK_COUNT: u32 = 30;

/// The text held by each string of `v`, in order.
pub open spec fn texts(v: Seq<String>) -> Seq<Seq<char>> {
    v.map_values(|s: String| s@)
}

/// Every entity of `s` after one step on a `width` by `height` world.
pub open spec fn step_all(s: Seq<EnemyModel>, width: int, height: int) -> Seq<EnemyModel> {
    s.map_values(|m: EnemyModel| step(m, width, height))
}

/// The entities `n` ticks after `start`.
pub open spec fn states_after(start: Seq<EnemyModel>, width: int, height: int, n: nat) -> Seq<
    EnemyModel,
>
    decreases n,
{
    if n == 0 {
        start
    } else {
        step_all(states_after(start, width, height, (n - 1) as nat), width, height)
    }
}

/// The lines printed once before the first tick.
pub open spec fn banner_lines() -> Seq<Seq<char>> {
    seq!["Starting enemy simulation..."@, Seq::empty()]
}

/// The line printed once after the last tick.
pub open spec fn end_line() -> Seq<char> {
    "Simulation ended."@
}

/// The line that closes the report of a tick.
pub open spec fn separator_line() -> Seq<char> {
    "---"@
}

/// The line that opens the report of tick `t`.
pub open spec fn tick_header(t: nat) -> Seq<char> {
    "Tick "@ + nat_text(t)
}

/// The line that reports where an entity stands.
pub open spec fn position_line(m: EnemyModel) -> Seq<char> {
    "Enemy at ("@ + int_text(m.x) + ", "@ + int_text(m.y) + ")"@
}

/// The report of tick `t`, after which the entities are `s`: its header,
/// one position line per entity in order, and the separator.
pub open spec fn tick_report(t: nat, s: Seq<EnemyModel>) -> Seq<Seq<char>> {
    seq![tick_header(t)] + s.map_values(|m: EnemyModel| position_line(m)) + seq![separator_line()]
}

/// The reports of the first `n` ticks from `start`, in order.
pub open spec fn tick_reports(start: Seq<EnemyModel>, width: int, height: int, n: nat) -> Seq<
    Seq<char>,
>
    decreases n,
{
    if n == 0 {
        Seq::empty()
    } else {
        tick_reports(start, width, height, (n - 1) as nat) + tick_report(
            (n - 1) as nat,
            states_after(start, width, height, n),
        )
    }
}

/// The whole trace of `n` ticks from `start`: the banner, the tick
/// reports, and the closing line.
pub open spec fn trace_text(start: Seq<EnemyModel>, width: int, height: int, n: nat) -> Seq<
    Seq<char>,
> {
    banner_lines() + tick_reports(start, width, height, n) + seq![end_line()]
}

/// The entities the simulation starts with, in order.
pub open spec fn initial_models() -> Seq<EnemyModel> {
    seq![
        EnemyModel { x: 10, y: 10, vx: 1, vy: 1 },
        EnemyModel { x: 40, y: 20, vx: -1, vy: 1 },
        EnemyModel { x: 70, y: 35, vx: 1, vy: -1 },
    ]
}

/// The trace that the fixed simulation prints.
pub open spec fn simulation_text() -> Seq<Seq<char>> {
    trace_text(initial_models(), WORLD_WIDTH as int, WORLD_HEIGHT as int, TICK_COUNT as nat)
}

/// Ticking never adds or removes an entity.
pub proof fn lemma_states_len(start: Seq<EnemyModel>, width: int, height: int, n: nat)
    ensures
        states_after(start, width, height, n).len() == start.len(),
    decreases n,
{
    if n > 0 {
        lemma_states_len(start, width, height, (n - 1) as nat);
    }
}

/// Entities that start settled in a world of positive 32-bit extents are
/// settled after any number of ticks.
pub proof fn lemma_states_settled(start: Seq<EnemyModel>, width: int, height: int, n: nat)
    requires
        1 <= width <= i32::MAX,
        1 <= height <= i32::MAX,
        forall|i: int| 0 <= i < start.len() ==> settled(#[trigger] start[i], width, height),
    ensures
        forall|i: int|
            0 <= i < start.len() ==> settled(
                #[trigger] states_after(start, width, height, n)[i],
                width,
                height,
            ),
    decreases n,
{
    if n > 0 {
        let m = (n - 1) as nat;
        lemma_states_settled(start, width, height, m);
        lemma_states_len(start, width, height, m);
        assert forall|i: int| 0 <= i < start.len() implies settled(
            #[trigger] states_after(start, width, height, n)[i],
            width,
            height,
        ) by {
            lemma_step_keeps_settled(states_after(start, width, height, m)[i], width, height);
        }
    }
}

/// Entities that start settled in a world of positive 32-bit extents can
/// take every step of any run with 32-bit fields.
pub proof fn lemma_states_fit(start: Seq<EnemyModel>, width: int, height: int, ticks: nat)
    requires
        1 <= width <= i32::MAX,
        1 <= height <= i32::MAX,
        forall|i: int| 0 <= i < start.len() ==> settled(#[trigger] start[i], width, height),
    ensures
        forall|k: nat, i: int|
            k < ticks && 0 <= i < start.len() ==> step_fits(
                #[trigger] states_after(start, width, height, k)[i],
            ),
{
    assert forall|k: nat, i: int| k < ticks && 0 <= i < start.len() implies step_fits(
        #[trigger] states_after(start, width, height, k)[i],
    ) by {
        lemma_states_settled(start, width, height, k);
        lemma_step_keeps_settled(states_after(start, width, height, k)[i], width, height);
    }
}

/// The line that opens the report of tick `t`.
pub fn tick_text(t: u32) -> (r: String)
    ensures
        r@ == tick_header(t as nat),
{
    let mut s = String::from_str("Tick ");
    push_nat(&mut s, t);
    s
}

/// The line that reports where `e` stands.
pub fn position_text(e: &Enemy) -> (r: String)
    ensures
        r@ == position_line(e@),
{
    let mut s = String::from_str("Enemy at (");
    push_int(&mut s, e.x);
    s.append(", ");
    push_int(&mut s, e.y);
    s.append(")");
    s
}

/// A world of fixed extents and the entities that move in it.
pub struct World {
    pub width: i32,
    pub height: i32,
    pub enemies: Vec<Enemy>,
}

impl World {
    /// The entities as mathematical values, in order.
    pub open spec fn models(&self) -> Seq<EnemyModel> {
        self.enemies@.map_values(|e: Enemy| e@)
    }

    /// Both extents are positive and every entity is settled inside.
    pub open spec fn well_formed(&self) -> bool {
        &&& 1 <= self.width
        &&& 1 <= self.height
        &&& forall|i: int|
            0 <= i < self.enemies@.len() ==> settled(
                #[trigger] self.enemies@[i]@,
                self.width as int,
                self.height as int,
            )
    }

    /// A `width` by `height` world holding `enemies`, in that order.
    pub fn new(width: i32, height: i32, enemies: Vec<Enemy>) -> (r: World)
        ensures
            r.width == width,
            r.height == height,
            r.enemies@ == enemies@,
    {
        World { width, height, enemies }
    }

    /// The fixed starting world of the simulation.
    pub fn initial() -> (r: World)
        ensures
            r.width == WORLD_WIDTH,
            r.height == WORLD_HEIGHT,
            r.models() == initial_models(),
            r.well_formed(),
    {
        let enemies = vec![Enemy::new(10, 10, 1, 1), Enemy::new(40, 20, -1, 1), Enemy::new(70, 35, 1, -1)];
        let r = World::new(WORLD_WIDTH, WORLD_HEIGHT, enemies);
        assert(r.models() =~= initial_models());
        r
    }

    /// Runs tick `t`: appends its header to `out`, then updates each entity
    /// in order and appends its new position, then appends the separator.
    pub fn tick(&mut self, t: u32, out: &mut Vec<String>)
        requires
            forall|i: int|
                0 <= i < old(self).enemies@.len() ==> step_fits(#[trigger] old(self).enemies@[i]@),
        ensures
            final(self).width == old(self).width,
            final(self).height == old(self).height,
            final(self).models() == step_all(
                old(self).models(),
                old(self).width as int,
                old(self).height as int,
            ),
            texts(final(out)@) == texts(old(out)@) + tick_report(t as nat, final(self).models()),
            old(self).well_formed() ==> final(self).well_formed(),
    {
        out.push(tick_text(t));
        let n = self.enemies.len();
        let mut i: usize = 0;
        while i < n
            invariant
                n == self.enemies@.len(),
                n == old(self).enemies@.len(),
                i <= n,
                self.width == old(self).width,
                self.height == old(self).height,
                forall|j: int|
                    0 <= j < i ==> #[trigger] self.enemies@[j]@ == step(
                        old(self).enemies@[j]@,
                        self.width as int,
                        self.height as int,
                    ),
                forall|j: int| i <= j < n ==> #[trigger] self.enemies@[j] == old(self).enemies@[j],
                forall|j: int|
                    0 <= j < n ==> step_fits(#[trigger] old(self).enemies@[j]@),
                texts(out@) == texts(old(out)@) + seq![tick_header(t as nat)] + self.enemies@.subrange(
                    0,
                    i as int,
                ).map_values(|e: Enemy| position_line(e@)),
            decreases n - i,
        {
            let mut e = self.enemies[i];
            e.update(self.width, self.height);
            let ghost prev_enemies = self.enemies@;
            self.enemies.set(i, e);
            let ghost prev_out = out@;
            let line = position_text(&e);
            out.push(line);
            proof {
                let lines = self.enemies@.subrange(0, i + 1).map_values(|e: Enemy| position_line(e@));
                let before = prev_enemies.subrange(0, i as int).map_values(
                    |e: Enemy| position_line(e@),
                );
                assert(self.enemies@.subrange(0, i as int) =~= prev_enemies.subrange(0, i as int));
                assert(lines =~= before.push(position_line(e@)));
                assert(texts(out@) =~= texts(prev_out).push(line@));
                assert(texts(out@) =~= texts(old(out)@) + seq![tick_header(t as nat)] + lines);
            }
            i += 1;
        }
        let ghost prev_out = out@;
        out.push(String::from_str("---"));
        proof {
            assert(texts(out@) =~= texts(prev_out).push(separator_line()));
            assert(self.models() =~= step_all(
                old(self).models(),
                old(self).width as int,
                old(self).height as int,
            ));
            assert(self.enemies@.subrange(0, n as int) =~= self.enemies@);
            assert(self.enemies@.map_values(|e: Enemy| position_line(e@)) =~= self.models().map_values(
                |m: EnemyModel| position_line(m),
            ));
            assert(texts(out@) =~= texts(old(out)@) + tick_report(t as nat, self.models()));
            if old(self).well_formed() {
                assert forall|i: int| 0 <= i < self.enemies@.len() implies settled(
                    #[trigger] self.enemies@[i]@,
                    self.width as int,
                    self.height as int,
                ) by {
                    lemma_step_keeps_settled(
                        old(self).enemies@[i]@,
                        self.width as int,
                        self.height as int,
                    );
                }
            }
        }
    }

    /// Runs `ticks` ticks, numbered from zero, and returns the trace: the
    /// banner, each tick's report, and the closing line.
    pub fn run(&mut self, ticks: u32) -> (lines: Vec<String>)
        requires
            forall|k: nat, i: int|
                k < ticks && 0 <= i < old(self).enemies@.len() ==> step_fits(
                    #[trigger] states_after(
                        old(self).models(),
                        old(self).width as int,
                        old(self).height as int,
                        k,
                    )[i],
                ),
        ensures
            final(self).width == old(self).width,
            final(self).height == old(self).height,
            final(self).models() == states_after(
                old(self).models(),
                old(self).width as int,
                old(self).height as int,
                ticks as nat,
            ),
            texts(lines@) == trace_text(
                old(self).models(),
                old(self).width as int,
                old(self).height as int,
                ticks as nat,
            ),
    {
        let ghost start = self.models();
        let ghost w = self.width as int;
        let ghost h = self.height as int;
        let mut lines: Vec<String> = Vec::new();
        lines.push(String::from_str("Starting enemy simulation..."));
        lines.push(String::new());
        assert(texts(lines@) =~= banner_lines() + tick_reports(start, w, h, 0));
        let mut t: u32 = 0;
        while t < ticks
            invariant
                t <= ticks,
                self.width as int == w,
                self.height as int == h,
                start == old(self).models(),
                w == old(self).width as int,
                h == old(self).height as int,
                self.models() == states_after(start, w, h, t as nat),
                texts(lines@) == banner_lines() + tick_reports(start, w, h, t as nat),
                forall|k: nat, i: int|
                    k < ticks && 0 <= i < start.len() ==> step_fits(
                        #[trigger] states_after(start, w, h, k)[i],
                    ),
            decreases ticks - t,
        {
            proof {
                lemma_states_len(start, w, h, t as nat);
                assert forall|i: int| 0 <= i < self.enemies@.len() implies step_fits(
                    #[trigger] self.enemies@[i]@,
                ) by {
                    assert(self.models()[i] == self.enemies@[i]@);
                    assert(step_fits(states_after(start, w, h, t as nat)[i]));
                }
            }
            self.tick(t, &mut lines);
            assert(texts(lines@) =~= banner_lines() + tick_reports(start, w, h, (t + 1) as nat));
            t += 1;
        }
        let ghost prev = lines@;
        lines.push(String::from_str("Simulation ended."));
        assert(texts(lines@) =~= texts(prev).push(end_line()));
        assert(texts(lines@) =~= trace_text(start, w, h, ticks as nat));
        lines
    }
}

/// Runs the fixed simulation and returns the lines it prints, in order.
pub fn simulate() -> (lines: Vec<String>)
    ensures
        texts(lines@) == simulation_text(),
{
    let mut world = World::initial();
    proof {
        lemma_states_fit(world.models(), WORLD_WIDTH as int, WORLD_HEIGHT as int, TICK_COUNT as nat);
    }
    world.run(TICK_COUNT)
}

} // verus!

verus! {

/// The `t`-th block of `size` lines of a trace, counted after the two
/// banner lines.
pub open spec fn block_at(text: Seq<Seq<char>>, size: nat, t: int) -> Seq<Seq<char>> {
    text.subrange(2 + t * size, 2 + (t + 1) * size)
}

/// The `t`-th block of `size` lines of a run of tick reports.
pub open spec fn report_block(reports: Seq<Seq<char>>, size: nat, t: int) -> Seq<Seq<char>> {
    reports.subrange(t * size, (t + 1) * size)
}

proof fn lemma_reports_layout(start: Seq<EnemyModel>, width: int, height: int, n: nat)
    ensures
        tick_reports(start, width, height, n).len() == n * (start.len() + 2),
        forall|t: int|
            0 <= t < n ==> #[trigger] report_block(
                tick_reports(start, width, height, n),
                start.len() + 2,
                t,
            ) == tick_report(t as nat, states_after(start, width, height, (t + 1) as nat)),
    decreases n,
{
    let size = start.len() + 2;
    if n == 0 {
        assert(n * size == 0) by (nonlinear_arith)
            requires
                n == 0,
        ;
    } else {
        let m = (n - 1) as nat;
        lemma_reports_layout(start, width, height, m);
        lemma_states_len(start, width, height, n);
        let prior = tick_reports(start, width, height, m);
        let last = tick_report(m, states_after(start, width, height, n));
        let all = tick_reports(start, width, height, n);
        assert(all == prior + last);
        assert(last.len() == size);
        assert(prior.len() == m * size);
        assert(n * size == m * size + size) by (nonlinear_arith)
            requires
                m == n - 1,
        ;
        assert forall|t: int| 0 <= t < n implies #[trigger] report_block(all, size, t)
            == tick_report(t as nat, states_after(start, width, height, (t + 1) as nat)) by {
            if t < m {
                assert((t + 1) * size <= m * size) by (nonlinear_arith)
                    requires
                        t + 1 <= m,
                        size >= 0,
                ;
                assert(0 <= t * size && (t + 1) * size == t * size + size) by (nonlinear_arith)
                    requires
                        t >= 0,
                        size >= 0,
                ;
                assert(report_block(all, size, t) =~= report_block(prior, size, t));
            } else {
                assert(t == m);
                assert((t + 1) * size == n * size) by (nonlinear_arith)
                    requires
                        t + 1 == n,
                ;
                assert(t * size == m * size) by (nonlinear_arith)
                    requires
                        t == m,
                ;
                assert(report_block(all, size, t) =~= last);
            }
        }
    }
}

/// Layout of the trace of `n` ticks over `k` entities: the two banner
/// lines; then, for each tick `t` from zero up in order, a block of `k + 2`
/// lines made of the header `Tick t`, one position line per entity as it
/// stands after that tick, and the separator `---`; and last the closing
/// line, after which nothing follows.
pub proof fn lemma_trace_layout(start: Seq<EnemyModel>, width: int, height: int, n: nat)
    ensures
        trace_text(start, width, height, n).len() == 3 + n * (start.len() + 2),
        trace_text(start, width, height, n).subrange(0, 2) == banner_lines(),
        trace_text(start, width, height, n).last() == end_line(),
        forall|t: int|
            0 <= t < n ==> #[trigger] block_at(
                trace_text(start, width, height, n),
                start.len() + 2,
                t,
            ) == tick_report(t as nat, states_after(start, width, height, (t + 1) as nat)),
        forall|t: int|
            0 <= t < n ==> (#[trigger] states_after(start, width, height, (t + 1) as nat)).len()
                == start.len(),
{
    let size = start.len() + 2;
    let reports = tick_reports(start, width, height, n);
    let text = trace_text(start, width, height, n);
    lemma_reports_layout(start, width, height, n);
    assert(text.subrange(0, 2) =~= banner_lines());
    assert forall|t: int| 0 <= t < n implies #[trigger] block_at(text, size, t) == tick_report(
        t as nat,
        states_after(start, width, height, (t + 1) as nat),
    ) by {
        assert((t + 1) * size <= n * size) by (nonlinear_arith)
            requires
                t + 1 <= n,
                size >= 0,
        ;
        assert(0 <= t * size && (t + 1) * size == t * size + size) by (nonlinear_arith)
            requires
                t >= 0,
                size >= 0,
        ;
        assert(block_at(text, size, t) =~= report_block(reports, size, t));
    }
    assert forall|t: int| 0 <= t < n implies (#[trigger] states_after(
        start,
        width,
        height,
        (t + 1) as nat,
    )).len() == start.len() by {
        lemma_states_len(start, width, height, (t + 1) as nat);
    }
}

/// The fixed simulation prints 153 lines: the banner, then thirty blocks
/// of five lines, one per tick from `Tick 0` to `Tick 29` in order, each a
/// header, the three entities' positions after that tick and `---`; its
/// last line is `Simulation ended.`.
pub proof fn lemma_simulation_layout()
    ensures
        simulation_text().len() == 153,
        simulation_text().subrange(0, 2) == banner_lines(),
        simulation_text().last() == end_line(),
        forall|t: int|
            0 <= t < 30 ==> #[trigger] block_at(simulation_text(), 5, t) == tick_report(
                t as nat,
                states_after(initial_models(), 100, 50, (t + 1) as nat),
            ),
        forall|t: int|
            0 <= t < 30 ==> (#[trigger] states_after(initial_models(), 100, 50, (t + 1) as nat)).len()
                == 3,
{
    lemma_trace_layout(initial_models(), 100, 50, 30);
}

/// Two runs of the fixed simulation print the same lines: the trace is a
/// function of the fixed starting data alone.
pub proof fn lemma_simulation_deterministic(first: Seq<String>, second: Seq<String>)
    requires
        texts(first) == simulation_text(),
        texts(second) == simulation_text(),
    ensures
        texts(first) == texts(second),
{
}

} // verus!
