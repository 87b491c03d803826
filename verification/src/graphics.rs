//! A coarse density grid over the simulated space, for visualisation: each
//! screen cell tallies the agents of the containers that map into it, by
//! disease state, and `draw` turns the tallies into RGBA pixels.

use vstd::prelude::*;

use crate::containers::Container;
use crate::disease::mixing::MixingStrategy;
use crate::disease::status::DiseaseStatus;
use crate::disease::status::State;
use crate::shared::Bounds;
use crate::shared::Pos;
use crate::Sim;
use vstd::arithmetic::div_mod::lemma_div_multiples_vanish;
use vstd::arithmetic::div_mod::lemma_div_is_ordered;
use vstd::arithmetic::div_mod::lemma_div_pos_is_pos;

verus! {

/// One screen cell's tallies.  Counters saturate instead of wrapping, so
/// the tally is total for any population.
#[derive(PartialEq, Eq, Structural, Clone, Copy, Debug)]
pub struct Cell {
    pub total: u64,
    pub num_susceptible: u64,
    pub num_exposed: u64,
    pub num_infectious: u64,
    pub num_recovered: u64,
}

/// An empty tally.
pub open spec fn spec_empty_cell() -> Cell {
    Cell { total: 0, num_susceptible: 0, num_exposed: 0, num_infectious: 0, num_recovered: 0 }
}

/// One more, saturating at the counter's ceiling.
pub open spec fn spec_sat_inc(x: u64) -> u64 {
    if x == u64::MAX {
        x
    } else {
        (x + 1) as u64
    }
}

/// A cell's tally after one more agent with the given status.
pub open spec fn spec_add_status(c: Cell, s: DiseaseStatus) -> Cell {
    Cell {
        total: spec_sat_inc(c.total),
        num_susceptible: if s.state == State::Susceptible {
            spec_sat_inc(c.num_susceptible)
        } else {
            c.num_susceptible
        },
        num_exposed: if s.state == State::Exposed {
            spec_sat_inc(c.num_exposed)
        } else {
            c.num_exposed
        },
        num_infectious: if s.state == State::Infectious {
            spec_sat_inc(c.num_infectious)
        } else {
            c.num_infectious
        },
        num_recovered: if s.state == State::Recovered {
            spec_sat_inc(c.num_recovered)
        } else {
            c.num_recovered
        },
    }
}

/// A cell's tally after all the agents of one inhabitant list.
pub open spec fn spec_tally_inhabitants(
    c: Cell,
    statuses: Seq<DiseaseStatus>,
    inhabitants: Seq<u32>,
) -> Cell
    decreases inhabitants.len(),
{
    if inhabitants.len() == 0 {
        c
    } else {
        spec_add_status(
            spec_tally_inhabitants(c, statuses, inhabitants.drop_last()),
            statuses[inhabitants.last() as int],
        )
    }
}

/// The horizontal screen cell a position maps to, clamped into range.
pub open spec fn spec_cell_x(pos: Pos, bounds: Bounds, width: int) -> int {
    let raw = pos.x * width / bounds.max_x as int;
    if raw < width - 1 {
        raw
    } else {
        width - 1
    }
}

/// The vertical screen cell a position maps to: the vertical axis is
/// flipped, so larger `y` coordinates map to upper rows.
pub open spec fn spec_cell_y(pos: Pos, bounds: Bounds, height: int) -> int {
    let raw = (bounds.max_y - pos.y) * height / bounds.max_y as int;
    if raw < height - 1 {
        raw
    } else {
        height - 1
    }
}

/// The flat screen cell index a container maps to.
pub open spec fn spec_cell_index(pos: Pos, bounds: Bounds, width: int, height: int) -> int {
    spec_cell_y(pos, bounds, height) * width + spec_cell_x(pos, bounds, width)
}

/// The whole grid's tallies after the agents of every container of a prefix.
pub open spec fn spec_world_cells<M: MixingStrategy>(
    base: Seq<Cell>,
    containers: Seq<Container<M>>,
    statuses: Seq<DiseaseStatus>,
    bounds: Bounds,
    width: int,
    height: int,
) -> Seq<Cell>
    decreases containers.len(),
{
    if containers.len() == 0 {
        base
    } else {
        let prev = spec_world_cells(base, containers.drop_last(), statuses, bounds, width, height);
        let idx = spec_cell_index(containers.last().pos, bounds, width, height);
        prev.update(idx, spec_tally_inhabitants(prev[idx], statuses, containers.last().inhabitants@))
    }
}

/// The visualisation grid: current tallies, the scratch copy the next
/// update writes into, and the densest cell's total for normalisation.
pub struct WorldGrid {
    pub cells: Vec<Cell>,
    pub width: usize,
    pub height: usize,
    pub max_at_cell: u64,
    pub scratch_cells: Vec<Cell>,
}

impl WorldGrid {
    /// The shape invariant, plus the bounds `draw` depends on: the counts
    /// of a cell never exceed its total, and no total exceeds the maximum.
    pub open spec fn wf(self) -> bool {
        &&& 1 <= self.width <= 32768
        &&& 1 <= self.height <= 32768
        &&& self.cells@.len() == self.width * self.height
        &&& self.scratch_cells@.len() == self.width * self.height
        &&& forall|i: int|
            0 <= i < self.cells@.len() ==> (#[trigger] self.cells@[i]).num_infectious
                <= self.cells@[i].total <= self.max_at_cell
    }

    /// An empty grid of the given dimensions.
    pub fn new_empty(width: usize, height: usize) -> (r: WorldGrid)
        requires
            1 <= width <= 32768,
            1 <= height <= 32768,
        ensures
            r.wf(),
            r.width == width,
            r.height == height,
            r.max_at_cell == 0,
            forall|i: int| 0 <= i < r.cells@.len() ==> #[trigger] r.cells@[i] == spec_empty_cell(),
    {
        proof {
            assert(width * height <= 0x40000000) by (nonlinear_arith)
                requires
                    width <= 32768,
                    height <= 32768,
            ;
        }
        let size = width * height;
        let mut cells: Vec<Cell> = Vec::new();
        let mut scratch_cells: Vec<Cell> = Vec::new();
        let mut i: usize = 0;
        while i < size
            invariant
                i <= size,
                cells@.len() == i,
                scratch_cells@.len() == i,
                forall|k: int| 0 <= k < i ==> #[trigger] cells@[k] == spec_empty_cell(),
                forall|k: int| 0 <= k < i ==> #[trigger] scratch_cells@[k] == spec_empty_cell(),
            decreases size - i,
        {
            cells.push(
                Cell {
                    total: 0,
                    num_susceptible: 0,
                    num_exposed: 0,
                    num_infectious: 0,
                    num_recovered: 0,
                },
            );
            scratch_cells.push(
                Cell {
                    total: 0,
                    num_susceptible: 0,
                    num_exposed: 0,
                    num_infectious: 0,
                    num_recovered: 0,
                },
            );
            i = i + 1;
        }
        WorldGrid { cells, width, height, max_at_cell: 0, scratch_cells }
    }

    /// Retally the grid from the simulation's current state: every
    /// container's inhabitants are counted, by disease state, into the cell
    /// the container's position maps to.
    pub fn update<M: MixingStrategy>(&mut self, sim: &Sim<M>)
        requires
            old(self).wf(),
            sim.params.wf(),
            sim.bounds.wf(),
            sim.agents.wf(sim.containers@.len() as int),
            sim.containers.agents_below(sim.agents.num_agents as int),
            sim.containers.positions_bounded(),
            forall|c: int|
                0 <= c < sim.containers@.len() ==> sim.bounds.spec_contains(
                    (#[trigger] sim.containers@[c]).pos,
                ),
        ensures
            final(self).wf(),
            final(self).width == old(self).width,
            final(self).height == old(self).height,
            final(self).cells@ == spec_world_cells(
                Seq::new(old(self).cells@.len(), |i: int| spec_empty_cell()),
                sim.containers@,
                sim.agents.disease_statuses@,
                sim.bounds,
                old(self).width as int,
                old(self).height as int,
            ),
    {
        let ghost base = Seq::new(old(self).cells@.len(), |i: int| spec_empty_cell());
        let ghost w = self.width as int;
        let ghost h = self.height as int;
        let size = self.cells.len();
        let mut i: usize = 0;
        while i < size
            invariant
                size == self.width * self.height,
                self.scratch_cells@.len() == size,
                self.width == old(self).width,
                self.height == old(self).height,
                self.cells@ == old(self).cells@,
                self.max_at_cell == old(self).max_at_cell,
                i <= size,
                base.len() == size,
                forall|k: int| 0 <= k < i ==> #[trigger] self.scratch_cells@[k] == spec_empty_cell(),
                forall|k: int| i <= k < size ==> #[trigger] self.scratch_cells@[k]
                    == old(self).scratch_cells@[k],
            decreases size - i,
        {
            self.scratch_cells[i] = Cell {
                total: 0,
                num_susceptible: 0,
                num_exposed: 0,
                num_infectious: 0,
                num_recovered: 0,
            };
            i = i + 1;
        }
        proof {
            assert(self.scratch_cells@ =~= base);
        }
        self.max_at_cell = 0;
        let num_containers = sim.containers.len();
        let mut c: usize = 0;
        while c < num_containers
            invariant
                sim.params.wf(),
                sim.bounds.wf(),
                sim.agents.wf(sim.containers@.len() as int),
                sim.containers.agents_below(sim.agents.num_agents as int),
                sim.containers.positions_bounded(),
                forall|c2: int|
                    0 <= c2 < sim.containers@.len() ==> sim.bounds.spec_contains(
                        (#[trigger] sim.containers@[c2]).pos,
                    ),
                num_containers == sim.containers@.len(),
                c <= num_containers,
                w == self.width as int,
                h == self.height as int,
                1 <= self.width <= 32768,
                1 <= self.height <= 32768,
                self.width == old(self).width,
                self.height == old(self).height,
                self.cells@ == old(self).cells@,
                self.scratch_cells@.len() == self.width * self.height,
                base.len() == self.width * self.height,
                self.scratch_cells@ == spec_world_cells(
                    base,
                    sim.containers@.take(c as int),
                    sim.agents.disease_statuses@,
                    sim.bounds,
                    w,
                    h,
                ),
                forall|k: int|
                    0 <= k < self.scratch_cells@.len() ==> (
                    #[trigger] self.scratch_cells@[k]).num_infectious <= self.scratch_cells@[k].total
                        <= self.max_at_cell,
            decreases num_containers - c,
        {
            let ghost pre_cells = self.scratch_cells@;
            let container = sim.containers.get(c as u64).unwrap();
            let pos = container.pos;
            proof {
                assert(sim.bounds.spec_contains(pos));
                assert((pos.x as int) * (self.width as int) < 0x10000000000) by (nonlinear_arith)
                    requires
                        pos.x < 0x100000,
                        self.width <= 32768,
                ;
                assert(((sim.bounds.max_y - pos.y) as int) * (self.height as int) < 0x10000000000)
                    by (nonlinear_arith)
                    requires
                        sim.bounds.max_y - pos.y <= 0x100000,
                        self.height <= 32768,
                ;
            }
            let x_raw: u64 = (pos.x as u64) * (self.width as u64) / (sim.bounds.max_x as u64);
            let x: usize = if x_raw < (self.width - 1) as u64 {
                x_raw as usize
            } else {
                self.width - 1
            };
            let y_raw: u64 = ((sim.bounds.max_y - pos.y) as u64) * (self.height as u64) / (
            sim.bounds.max_y as u64);
            let y: usize = if y_raw < (self.height - 1) as u64 {
                y_raw as usize
            } else {
                self.height - 1
            };
            proof {
                assert(x == spec_cell_x(pos, sim.bounds, w));
                assert(y == spec_cell_y(pos, sim.bounds, h));
                assert(y * w + x < w * h && w * h <= 0x40000000) by (nonlinear_arith)
                    requires
                        0 <= x < self.width,
                        0 <= y < self.height,
                        w == self.width as int,
                        h == self.height as int,
                        self.width <= 32768,
                        self.height <= 32768,
                ;
            }
            let idx: usize = y * self.width + x;
            let mut cell_stats = self.scratch_cells[idx];
            let num_inhabitants = container.inhabitants.len();
            let mut k: usize = 0;
            while k < num_inhabitants
                invariant
                    num_inhabitants == container.inhabitants@.len(),
                    k <= num_inhabitants,
                    container == sim.containers@[c as int],
                    c < sim.containers@.len(),
                    sim.agents.wf(sim.containers@.len() as int),
                    sim.containers.agents_below(sim.agents.num_agents as int),
                    cell_stats == spec_tally_inhabitants(
                        pre_cells[idx as int],
                        sim.agents.disease_statuses@,
                        container.inhabitants@.take(k as int),
                    ),
                    cell_stats.num_infectious <= cell_stats.total,
                    pre_cells[idx as int].total <= cell_stats.total,
                decreases num_inhabitants - k,
            {
                proof {
                    assert(container.inhabitants@.take(k + 1).drop_last()
                        =~= container.inhabitants@.take(k as int));
                    assert(container.inhabitants@.take(k + 1).last()
                        == container.inhabitants@[k as int]);
                }
                let agent_idx = container.inhabitants[k];
                let status = sim.agents.disease_statuses[agent_idx as usize];
                let new_total: u64 = if cell_stats.total == u64::MAX {
                    cell_stats.total
                } else {
                    cell_stats.total + 1
                };
                cell_stats = Cell {
                    total: new_total,
                    num_susceptible: if status.state == State::Susceptible
                        && cell_stats.num_susceptible != u64::MAX {
                        cell_stats.num_susceptible + 1
                    } else {
                        cell_stats.num_susceptible
                    },
                    num_exposed: if status.state == State::Exposed && cell_stats.num_exposed
                        != u64::MAX {
                        cell_stats.num_exposed + 1
                    } else {
                        cell_stats.num_exposed
                    },
                    num_infectious: if status.state == State::Infectious && cell_stats.num_infectious
                        != u64::MAX {
                        cell_stats.num_infectious + 1
                    } else {
                        cell_stats.num_infectious
                    },
                    num_recovered: if status.state == State::Recovered && cell_stats.num_recovered
                        != u64::MAX {
                        cell_stats.num_recovered + 1
                    } else {
                        cell_stats.num_recovered
                    },
                };
                k = k + 1;
            }
            proof {
                assert(container.inhabitants@.take(num_inhabitants as int)
                    =~= container.inhabitants@);
            }
            self.scratch_cells[idx] = cell_stats;
            if cell_stats.total > self.max_at_cell {
                self.max_at_cell = cell_stats.total;
            }
            proof {
                assert(sim.containers@.take(c + 1).drop_last() =~= sim.containers@.take(c as int));
                assert(sim.containers@.take(c + 1).last() == sim.containers@[c as int]);
                assert(self.scratch_cells@ =~= pre_cells.update(idx as int, cell_stats));
            }
            c = c + 1;
        }
        proof {
            assert(sim.containers@.take(num_containers as int) =~= sim.containers@);
        }
        let ghost final_scratch = self.scratch_cells@;
        core::mem::swap(&mut self.scratch_cells, &mut self.cells);
        proof {
            assert(self.cells@ == final_scratch);
        }
    }

    /// Render the tallies into an RGBA byte buffer, four bytes per cell:
    /// red is the cell's infectious share, green its population density
    /// discounted by that share, and the last two channels stay zero.
    pub fn draw(&self, screen: &mut Vec<u8>)
        requires
            self.wf(),
            old(screen)@.len() == 4 * self.cells@.len(),
        ensures
            final(screen)@.len() == old(screen)@.len(),
            forall|i: int|
                0 <= i < self.cells@.len() ==> {
                    let cell = #[trigger] self.cells@[i];
                    &&& final(screen)@[4 * i] == (if cell.total > 0 {
                        255 * cell.num_infectious / cell.total as int
                    } else {
                        0
                    })
                    &&& final(screen)@[4 * i + 1] == (if self.max_at_cell > 0 {
                        255 * (cell.total - cell.num_infectious) / self.max_at_cell as int
                    } else {
                        0
                    })
                    &&& final(screen)@[4 * i + 2] == 0
                    &&& final(screen)@[4 * i + 3] == 0
                },
    {
        let n = self.cells.len();
        let total_len = screen.len();
        let mut i: usize = 0;
        while i < n
            invariant
                self.wf(),
                n == self.cells@.len(),
                i <= n,
                total_len == 4 * n,
                screen@.len() == 4 * n,
                forall|k: int|
                    0 <= k < i ==> {
                        let cell = #[trigger] self.cells@[k];
                        &&& screen@[4 * k] == (if cell.total > 0 {
                            255 * cell.num_infectious / cell.total as int
                        } else {
                            0
                        })
                        &&& screen@[4 * k + 1] == (if self.max_at_cell > 0 {
                            255 * (cell.total - cell.num_infectious) / self.max_at_cell as int
                        } else {
                            0
                        })
                        &&& screen@[4 * k + 2] == 0
                        &&& screen@[4 * k + 3] == 0
                    },
                forall|k: int|
                    4 * i <= k < 4 * n ==> #[trigger] screen@[k] == old(screen)@[k],
            decreases n - i,
        {
            let cell = self.cells[i];
            let red: u8 = if cell.total > 0 {
                proof {
                    lemma_byte_ratio(cell.num_infectious as int, cell.total as int);
                }
                ((255 * (cell.num_infectious as u128) / (cell.total as u128)) as u64) as u8
            } else {
                0
            };
            let green: u8 = if self.max_at_cell > 0 {
                proof {
                    lemma_byte_ratio(
                        cell.total - cell.num_infectious as int,
                        self.max_at_cell as int,
                    );
                }
                ((255 * ((cell.total - cell.num_infectious) as u128) / (self.max_at_cell as u128))
                    as u64) as u8
            } else {
                0
            };
            screen[4 * i] = red;
            screen[4 * i + 1] = green;
            screen[4 * i + 2] = 0;
            screen[4 * i + 3] = 0;
            i = i + 1;
        }
    }
}

/// A numerator no larger than the denominator keeps the scaled ratio within
/// one byte.
proof fn lemma_byte_ratio(num: int, den: int)
    requires
        0 <= num <= den,
        1 <= den,
    ensures
        0 <= 255 * num / den <= 255,
{
    lemma_div_pos_is_pos(255 * num, den);
    assert(255 * num <= 255 * den) by (nonlinear_arith)
        requires
            num <= den,
    ;
    lemma_div_is_ordered(255 * num, 255 * den, den);
    lemma_div_multiples_vanish(255, den);
}

} // verus!
