//! Output formats offered for statistics.
use vstd::prelude::*;

verus! {

/// How a report is rendered.
#[derive(Debug, Clone, Copy, PartialEq, Eq, Structural)]
pub enum OutputFormat {
    Json,
    Markdown,
}

} // verus!
