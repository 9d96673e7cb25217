use vstd::prelude::*;
use crate::grid::{GridConfig, step_grid, update_life};
use crate::render::{frame, render};
use crate::seed::{catalogue_view, init_pattern, seeded};

verus! {

/// The two equally sized grids of a running simulation: the current generation, and
/// the buffer the next one is written into before the two trade places.
pub struct Life {
    pub config: GridConfig,
    pub current: Vec<bool>,
    pub next: Vec<bool>,
}

impl Life {
    /// Both grids have the configured number of cells.
    pub open spec fn wf(&self) -> bool {
        &&& self.config.wf()
        &&& self.current@.len() == self.config.cells()
        &&& self.next@.len() == self.config.cells()
    }

    /// A simulation whose grids hold only dead cells.
    pub fn new(config: GridConfig) -> (r: Life)
        requires
            config.wf(),
        ensures
            r.wf(),
            r.config == config,
            r.current@ == Seq::new(config.cells() as nat, |i: int| false),
    {
        let n = config.width * config.height;
        let current = vec![false; n];
        let next = vec![false; n];
        let r = Life { config, current, next };
        assert(r.current@ =~= Seq::new(config.cells() as nat, |i: int| false));
        r
    }

    /// Stamps the starting catalogue of patterns on the current generation.
    pub fn seed(&mut self)
        requires
            old(self).wf(),
        ensures
            final(self).wf(),
            final(self).config == old(self).config,
            final(self).current@ == seeded(
                old(self).current@,
                old(self).config.width as int,
                catalogue_view(),
                catalogue_view().len() as int,
            ),
    {
        init_pattern(self.current.as_mut_slice(), &self.config);
    }

    /// Advances one generation: the next grid is computed from the current one, then
    /// the two trade places.
    pub fn advance(&mut self)
        requires
            old(self).wf(),
        ensures
            final(self).wf(),
            final(self).config == old(self).config,
            final(self).current@ == step_grid(
                old(self).current@,
                old(self).config.width as int,
                old(self).config.height as int,
            ),
    {
        update_life(self.current.as_slice(), self.next.as_mut_slice(), &self.config);
        core::mem::swap(&mut self.current, &mut self.next);
    }

    /// Repaints `buffer` with the picture of the current generation.
    pub fn draw(&self, buffer: &mut [u32])
        requires
            self.wf(),
            old(buffer)@.len() == self.config.pixels(),
        ensures
            final(buffer)@ == frame(self.current@, self.config),
    {
        render(buffer, self.current.as_slice(), &self.config);
    }
}

} // verus!
