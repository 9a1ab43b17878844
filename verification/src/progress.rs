//! The hook through which an update reports each of its steps.

use vstd::prelude::*;
use crate::index::BlockIndex;
use crate::layer::Layer;
use crate::voxel::{Esdf, Tsdf};

verus! {

/// Receives a report after each step of an update: the name of the step,
/// the two layers as they are at that moment, the blocks that the step was
/// about, and for how many milliseconds a viewer may want to show the
/// state. Both layers are well formed whenever a report is made.
pub trait ProgressCallback<const VPS: usize> {
    fn report(
        &mut self,
        op: &str,
        tsdf_layer: &Layer<Tsdf, VPS>,
        esdf_layer: &Layer<Esdf, VPS>,
        blocks: &[BlockIndex<VPS>],
        millis: u64,
    )
        requires
            tsdf_layer.wf(),
            esdf_layer.wf(),
    ;
}

/// A callback that ignores every report.
#[derive(Debug, Clone, Copy)]
pub struct NoProgress {}

impl Default for NoProgress {
    fn default() -> Self {
        NoProgress {}
    }
}

impl<const VPS: usize> ProgressCallback<VPS> for NoProgress {
    fn report(
        &mut self,
        op: &str,
        tsdf_layer: &Layer<Tsdf, VPS>,
        esdf_layer: &Layer<Esdf, VPS>,
        blocks: &[BlockIndex<VPS>],
        millis: u64,
    ) {
    }
}

/// How long a viewer may show the state after the report of the updated
/// blocks, in milliseconds.
pub const UPDATE_REPORT_MILLIS: u64 = 500;

/// How long a viewer may show the state after the report of one step on
/// one block, in milliseconds.
pub const STEP_REPORT_MILLIS: u64 = 50;

} // verus!
