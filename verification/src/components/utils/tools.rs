use vstd::prelude::*;

use crate::data::file::same_text;

verus! {

/// The tools of the editor.
#[derive(Debug, Clone, Copy, PartialEq, Eq, Structural)]
pub enum BrushTool {
    Move,
    Brush,
    Box,
    Ellipse,
    SelectBox,
    SelectLasso,
    SelectWand,
}

/// The tool that an action name selects, if the name is one of the editor's.
pub open spec fn tool_named(name: Seq<char>) -> Option<BrushTool> {
    if name == "move"@ {
        Some(BrushTool::Move)
    } else if name == "brush"@ {
        Some(BrushTool::Brush)
    } else if name == "box"@ {
        Some(BrushTool::Box)
    } else if name == "ellipse"@ {
        Some(BrushTool::Ellipse)
    } else if name == "box_select"@ {
        Some(BrushTool::SelectBox)
    } else if name == "lasso_select"@ {
        Some(BrushTool::SelectLasso)
    } else if name == "wand_select"@ {
        Some(BrushTool::SelectWand)
    } else {
        None
    }
}

impl BrushTool {
    /// The tool that an action name selects; `None` for a name that is not a tool's.
    pub fn from_name(name: &str) -> (r: Option<BrushTool>)
        ensures
            r == tool_named(name@),
    {
        if same_text(name, "move") {
            Some(BrushTool::Move)
        } else if same_text(name, "brush") {
            Some(BrushTool::Brush)
        } else if same_text(name, "box") {
            Some(BrushTool::Box)
        } else if same_text(name, "ellipse") {
            Some(BrushTool::Ellipse)
        } else if same_text(name, "box_select") {
            Some(BrushTool::SelectBox)
        } else if same_text(name, "lasso_select") {
            Some(BrushTool::SelectLasso)
        } else if same_text(name, "wand_select") {
            Some(BrushTool::SelectWand)
        } else {
            None
        }
    }
}

} // verus!
