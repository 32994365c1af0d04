//! The parts of an entity's debug text that hold no floating-point value:
//! its header and which motion section it has.

use vstd::prelude::*;
use crate::hierarchy::{decimal, decimal_text};
use crate::map_manager::Entity;

verus! {

broadcast use vstd::string::group_string_axioms;

/// A truth value as text.
pub open spec fn bool_text(b: bool) -> Seq<char> {
    if b {
        "true"@
    } else {
        "false"@
    }
}

/// The header of an entity's debug text: its number and name (`Unnamed`
/// without one), whether it is active (it is unless marked otherwise) and
/// its layer (0 unless set).
pub open spec fn debug_header_text(
    entity: Entity,
    name: Option<Seq<char>>,
    active: Option<bool>,
    layer: Option<u64>,
) -> Seq<char> {
    let shown_name = match name {
        Some(n) => n,
        None => "Unnamed"@,
    };
    let is_active = match active {
        Some(a) => a,
        None => true,
    };
    let shown_layer: nat = match layer {
        Some(l) => l as nat,
        None => 0,
    };
    "=== Entity "@ + decimal(entity as nat) + " ("@ + shown_name + ") ===\n\n"@ + "Active: "@
        + bool_text(is_active) + "\n"@ + "Layer: "@ + decimal(shown_layer) + "\n\n"@
}

/// The header of an entity's debug text.
pub fn debug_header(entity: Entity, name: Option<&String>, active: Option<bool>, layer: Option<u64>) -> (header: String)
    ensures
        header@ == debug_header_text(
            entity,
            match name {
                Some(n) => Some(n@),
                None => None,
            },
            active,
            layer,
        ),
{
    let mut header = String::from_str("=== Entity ");
    let number = decimal_text(entity);
    header.append(number.as_str());
    header.append(" (");
    match name {
        Some(n) => header.append(n.as_str()),
        None => header.append("Unnamed"),
    }
    header.append(") ===\n\n");
    header.append("Active: ");
    let is_active = match active {
        Some(a) => a,
        None => true,
    };
    if is_active {
        header.append("true");
    } else {
        header.append("false");
    }
    header.append("\n");
    header.append("Layer: ");
    let shown_layer: u64 = match layer {
        Some(l) => l,
        None => 0,
    };
    let layer_text = decimal_text(shown_layer);
    header.append(layer_text.as_str());
    header.append("\n\n");
    header
}

/// The section of an entity's debug text that tells how it moves.
#[derive(Debug, Clone, Copy, PartialEq, Eq, Structural)]
pub enum MotionSection {
    /// The rigid body's velocity, gravity scale, mass and flags.
    Rigidbody,
    /// The velocity component of entities without a rigid body.
    LegacyVelocity,
    /// Neither.
    Absent,
}

/// Which motion section an entity's debug text has: the rigid body's when it
/// has one, else the velocity's when it has one.
pub fn motion_section(has_rigidbody: bool, has_velocity: bool) -> (section: MotionSection)
    ensures
        section == (if has_rigidbody {
            MotionSection::Rigidbody
        } else if has_velocity {
            MotionSection::LegacyVelocity
        } else {
            MotionSection::Absent
        }),
{
    if has_rigidbody {
        MotionSection::Rigidbody
    } else if has_velocity {
        MotionSection::LegacyVelocity
    } else {
        MotionSection::Absent
    }
}

} // verus!
