//! Release-fence bookkeeping between a renderer and its consumers.

pub mod reaper;
