//! Graphics settings and the choices drawn from them.

use vstd::prelude::*;

verus! {

/// Task state visual mode: controls how many distinct colors are used for
/// agent task states in the 3D view and UI legend.
#[derive(Debug, Clone, Copy, PartialEq, Eq, Structural, Default)]
pub enum TaskStateMode {
    /// 4 macro groups: Idle, Picking, Delivering, Faulted.
    #[default]
    Simple,
    /// Full 8-state palette: every TaskLeg gets a unique color.
    Detailed,
}

#[derive(Debug, Clone, Copy, PartialEq, Eq, Structural)]
pub struct GraphicsConfig {
    pub shadows: bool,
    pub msaa: bool,
    pub colorblind: bool,
    pub task_state_mode: TaskStateMode,
}

impl Default for GraphicsConfig {
    fn default() -> (c: Self)
        ensures
            !c.shadows,
            c.msaa,
            !c.colorblind,
            c.task_state_mode == TaskStateMode::Simple,
    {
        GraphicsConfig {
            shadows: false,
            msaa: true,
            colorblind: false,
            task_state_mode: TaskStateMode::Simple,
        }
    }
}

/// The four task-state palettes: {Simple, Detailed} x {Normal, Colorblind}.
#[derive(Debug, Clone, Copy, PartialEq, Eq, Structural)]
pub enum TaskPalette {
    Detailed,
    DetailedColorblind,
    Simple,
    SimpleColorblind,
}

impl GraphicsConfig {
    /// The palette for the mode and colorblind setting.
    pub fn task_palette(&self) -> (p: TaskPalette)
        ensures
            p == match (self.task_state_mode, self.colorblind) {
                (TaskStateMode::Detailed, false) => TaskPalette::Detailed,
                (TaskStateMode::Detailed, true) => TaskPalette::DetailedColorblind,
                (TaskStateMode::Simple, false) => TaskPalette::Simple,
                (TaskStateMode::Simple, true) => TaskPalette::SimpleColorblind,
            },
    {
        match (self.task_state_mode, self.colorblind) {
            (TaskStateMode::Detailed, false) => TaskPalette::Detailed,
            (TaskStateMode::Detailed, true) => TaskPalette::DetailedColorblind,
            (TaskStateMode::Simple, false) => TaskPalette::Simple,
            (TaskStateMode::Simple, true) => TaskPalette::SimpleColorblind,
        }
    }

    /// Palette slots that glow while the agent dwells (Loading, Queuing,
    /// Unloading); only in detailed mode.
    pub fn is_dwell_slot(&self, state: usize) -> (d: bool)
        ensures
            d == (self.task_state_mode == TaskStateMode::Detailed && (state == 2 || state == 4
                || state == 6)),
    {
        self.task_state_mode == TaskStateMode::Detailed && (state == 2 || state == 4 || state == 6)
    }

    /// Multisample count for the camera: 4 samples with MSAA on, 1 (off)
    /// otherwise.
    pub fn msaa_samples(&self) -> (n: u32)
        ensures
            n == if self.msaa {
                4u32
            } else {
                1u32
            },
    {
        if self.msaa {
            4
        } else {
            1
        }
    }
}

} // verus!
