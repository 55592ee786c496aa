//! The five layout modes and the names under which they are selected.

use crate::text::same_text;
use std::convert::Infallible;
use vstd::prelude::*;

verus! {

/// Where the words of a line are placed inside the column.
#[derive(Clone, Copy, Debug, PartialEq, Eq, Structural)]
pub enum Align {
    Left,
    Center,
    Right,
}

/// How a line that fills the column is cut.
#[derive(Clone, Copy, Debug, PartialEq, Eq, Structural)]
pub enum Flush {
    Flush,
    FlushHyphen,
}

/// A layout mode: the lines either break at spaces and are aligned, or fill
/// the column and are cut wherever it ends.
#[derive(Clone, Copy, Debug, PartialEq, Eq, Structural)]
pub enum Mode {
    AlignMode(Align),
    FlushMode(Flush),
}

/// Whether `name` is one of the five names that select a mode.
pub open spec fn is_mode_name(name: Seq<char>) -> bool {
    name == "left"@ || name == "center"@ || name == "right"@ || name == "flush"@ || name
        == "flush-hyphen"@
}

/// The mode that `name` selects. Every name that is not one of the five
/// selects left alignment.
pub open spec fn mode_named(name: Seq<char>) -> Mode {
    if name == "left"@ {
        Mode::AlignMode(Align::Left)
    } else if name == "center"@ {
        Mode::AlignMode(Align::Center)
    } else if name == "right"@ {
        Mode::AlignMode(Align::Right)
    } else if name == "flush"@ {
        Mode::FlushMode(Flush::Flush)
    } else if name == "flush-hyphen"@ {
        Mode::FlushMode(Flush::FlushHyphen)
    } else {
        Mode::AlignMode(Align::Left)
    }
}

impl Mode {
    /// Reads a mode from its name. This never fails: a name that selects no
    /// mode gives left alignment.
    pub fn from_str(input: &str) -> (mode: Result<Mode, Infallible>)
        ensures
            mode == Ok::<Mode, Infallible>(mode_named(input@)),
            !is_mode_name(input@) ==> mode == Ok::<Mode, Infallible>(
                Mode::AlignMode(Align::Left),
            ),
    {
        if same_text(input, "left") {
            Ok(Mode::AlignMode(Align::Left))
        } else if same_text(input, "center") {
            Ok(Mode::AlignMode(Align::Center))
        } else if same_text(input, "right") {
            Ok(Mode::AlignMode(Align::Right))
        } else if same_text(input, "flush") {
            Ok(Mode::FlushMode(Flush::Flush))
        } else if same_text(input, "flush-hyphen") {
            Ok(Mode::FlushMode(Flush::FlushHyphen))
        } else {
            Ok(Mode::AlignMode(Align::Left))
        }
    }
}

} // verus!
