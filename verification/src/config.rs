//! Overlay model: the layer / group / button structures the overlay renders. Built
//! by the `layers` module from `layers.toml` and read by the overlay window.

use vstd::prelude::*;

verus! {

#[derive(Debug, Clone)]
pub struct ButtonLegend {
    /// The glyph shown for this button (in render order within its group).
    pub display: String,
}

#[derive(Debug, Clone)]
pub struct ButtonGroup {
    /// Group label shown above the buttons; `None` for the unlabeled group.
    pub label: Option<String>,
    pub buttons: Vec<ButtonLegend>,
}

#[derive(Debug, Clone)]
pub struct LayoutInfo {
    /// Human title for the layer (the deck name).
    pub label: String,
    pub groups: Vec<ButtonGroup>,
}

/// A button group as the overlay shows it: its label and its legends in order.
pub struct GroupModel {
    pub label: Option<Seq<char>>,
    pub buttons: Seq<Seq<char>>,
}

/// A layer as the overlay shows it: its title and its groups in render order.
pub struct LayoutModel {
    pub label: Seq<char>,
    pub groups: Seq<GroupModel>,
}

/// The optional string seen as an optional character sequence.
pub open spec fn opt_view(o: Option<String>) -> Option<Seq<char>> {
    match o {
        Some(s) => Some(s@),
        None => None,
    }
}

impl View for ButtonGroup {
    type V = GroupModel;

    open spec fn view(&self) -> GroupModel {
        GroupModel {
            label: opt_view(self.label),
            buttons: self.buttons@.map_values(|b: ButtonLegend| b.display@),
        }
    }
}

impl View for LayoutInfo {
    type V = LayoutModel;

    open spec fn view(&self) -> LayoutModel {
        LayoutModel {
            label: self.label@,
            groups: self.groups@.map_values(|g: ButtonGroup| g@),
        }
    }
}

} // verus!
