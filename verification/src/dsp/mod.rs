//! The DSP code base is built as blocks, which form pipelines. Pipelines can
//! be branched and converged, and form a graph.
pub mod block;
