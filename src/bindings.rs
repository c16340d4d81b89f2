//! Actions that keys can be bound to.
use vstd::prelude::*;

use vstd::string::*;

use crate::ruler::{decimal, decimal_string};
use crate::text::{decimal_value, parse_usize, text_eq};

verus! {

/// A key binding category.  The help screen lists bindings by category.
#[derive(Clone, Copy, Debug, PartialEq, Eq, Structural)]
pub enum Category {
    /// Uncategorized actions.
    Other,
    /// Actions for controlling the pager.
    General,
    /// Actions for moving around the file.
    Navigation,
    /// Actions that affect the presentation of the file.
    Presentation,
    /// Actions that initiate or modify searches.
    Searching,
}

impl Category {
    /// The categories in the order the help screen lists them.
    pub fn categories() -> (r: Vec<Category>)
        ensures
            r@ == seq![Category::General, Category::Navigation, Category::Presentation, Category::Searching, Category::Other],
    {
        let mut v: Vec<Category> = Vec::new();
        v.push(Category::General);
        v.push(Category::Navigation);
        v.push(Category::Presentation);
        v.push(Category::Searching);
        v.push(Category::Other);
        v
    }

    /// The heading of the category in the help screen.
    pub fn name(&self) -> (r: &'static str)
        ensures
            r@ == category_name(*self),
    {
        match self {
            Category::Other => "Other",
            Category::General => "General",
            Category::Navigation => "Navigation",
            Category::Presentation => "Presentation",
            Category::Searching => "Searching",
        }
    }
}

/// The heading of a category.
pub open spec fn category_name(c: Category) -> Seq<char> {
    match c {
        Category::Other => "Other"@,
        Category::General => "General"@,
        Category::Navigation => "Navigation"@,
        Category::Presentation => "Presentation"@,
        Category::Searching => "Searching"@,
    }
}

/// An action that may be bound to a key.
#[derive(Clone, Debug, Hash, PartialEq, Eq)]
pub enum Binding {
    /// Quit the pager.
    Quit,
    /// Refresh the screen.
    Refresh,
    /// Show the help screen.
    Help,
    /// Cancel the current action.
    Cancel,
    /// Switch to the previous file.
    PreviousFile,
    /// Switch to the next file.
    NextFile,
    /// Scroll up *n* lines.
    ScrollUpLines(usize),
    /// Scroll down *n* lines.
    ScrollDownLines(usize),
    /// Scroll up 1/*n* of the screen height.
    ScrollUpScreenFraction(usize),
    /// Scroll down 1/*n* of the screen height.
    ScrollDownScreenFraction(usize),
    /// Scroll to the top of the file.
    ScrollToTop,
    /// Scroll to the bottom of the file, and start following it.
    ScrollToBottom,
    /// Scroll left *n* columns.
    ScrollLeftColumns(usize),
    /// Scroll right *n* columns.
    ScrollRightColumns(usize),
    /// Scroll left 1/*n* of the screen width.
    ScrollLeftScreenFraction(usize),
    /// Scroll right 1/*n* of the screen width.
    ScrollRightScreenFraction(usize),
    /// Toggle display of line numbers.
    ToggleLineNumbers,
    /// Toggle line wrapping mode.
    ToggleLineWrapping,
    /// Prompt for a line to move to.
    PromptGoToLine,
    /// Prompt for a search term, searching from the start of the file.
    PromptSearchFromStart,
    /// Prompt for a search term, searching forwards from the top of the screen.
    PromptSearchForwards,
    /// Prompt for a search term, searching backwards from the bottom of the screen.
    PromptSearchBackwards,
    /// Move to the previous match.
    PreviousMatch,
    /// Move to the next match.
    NextMatch,
    /// Move to the previous line that contains a match.
    PreviousMatchLine,
    /// Move to the next line that contains a match.
    NextMatchLine,
    /// Move to the first match.
    FirstMatch,
    /// Move to the last match.
    LastMatch,
    /// An unrecognised binding.
    Unrecognized(String),
}

/// Why a binding could not be read.
#[derive(Clone, Debug, PartialEq, Eq)]
pub enum BindingError {
    /// The binding needs a parameter that was not given.
    MissingParameter {
        /// The name of the binding.
        ident: String,
        /// The position of the parameter.
        index: usize,
    },
    /// A parameter of the binding is not a number.
    InvalidParameter {
        /// The name of the binding.
        ident: String,
        /// The position of the parameter.
        index: usize,
    },
}

/// The binding named `ident`, for the names that take no parameter.
pub open spec fn plain_binding(ident: Seq<char>) -> Option<Binding> {
    if ident == "Quit"@ {
        Some(Binding::Quit)
    }     else if ident == "Refresh"@ {
        Some(Binding::Refresh)
    }     else if ident == "Help"@ {
        Some(Binding::Help)
    }     else if ident == "Cancel"@ {
        Some(Binding::Cancel)
    }     else if ident == "PreviousFile"@ {
        Some(Binding::PreviousFile)
    }     else if ident == "NextFile"@ {
        Some(Binding::NextFile)
    }     else if ident == "ScrollToTop"@ {
        Some(Binding::ScrollToTop)
    }     else if ident == "ScrollToBottom"@ {
        Some(Binding::ScrollToBottom)
    }     else if ident == "ToggleLineNumbers"@ {
        Some(Binding::ToggleLineNumbers)
    }     else if ident == "ToggleLineWrapping"@ {
        Some(Binding::ToggleLineWrapping)
    }     else if ident == "PromptGoToLine"@ {
        Some(Binding::PromptGoToLine)
    }     else if ident == "PromptSearchFromStart"@ {
        Some(Binding::PromptSearchFromStart)
    }     else if ident == "PromptSearchForwards"@ {
        Some(Binding::PromptSearchForwards)
    }     else if ident == "PromptSearchBackwards"@ {
        Some(Binding::PromptSearchBackwards)
    }     else if ident == "PreviousMatch"@ {
        Some(Binding::PreviousMatch)
    }     else if ident == "NextMatch"@ {
        Some(Binding::NextMatch)
    }     else if ident == "PreviousMatchLine"@ {
        Some(Binding::PreviousMatchLine)
    }     else if ident == "NextMatchLine"@ {
        Some(Binding::NextMatchLine)
    }     else if ident == "FirstMatch"@ {
        Some(Binding::FirstMatch)
    }     else if ident == "LastMatch"@ {
        Some(Binding::LastMatch)
    } else {
        None
    }
}

/// Whether the binding named `ident` takes a count parameter.
pub open spec fn counted_binding(ident: Seq<char>, n: usize) -> Option<Binding> {
    if ident == "ScrollUpLines"@ {
        Some(Binding::ScrollUpLines(n))
    }     else if ident == "ScrollDownLines"@ {
        Some(Binding::ScrollDownLines(n))
    }     else if ident == "ScrollUpScreenFraction"@ {
        Some(Binding::ScrollUpScreenFraction(n))
    }     else if ident == "ScrollDownScreenFraction"@ {
        Some(Binding::ScrollDownScreenFraction(n))
    }     else if ident == "ScrollLeftColumns"@ {
        Some(Binding::ScrollLeftColumns(n))
    }     else if ident == "ScrollRightColumns"@ {
        Some(Binding::ScrollRightColumns(n))
    }     else if ident == "ScrollLeftScreenFraction"@ {
        Some(Binding::ScrollLeftScreenFraction(n))
    }     else if ident == "ScrollRightScreenFraction"@ {
        Some(Binding::ScrollRightScreenFraction(n))
    } else {
        None
    }
}

/// The count a parameter text gives, if it is a number that fits.
pub open spec fn count_param(p: Seq<char>) -> Option<usize> {
    match decimal_value(p) {
        Some(v) => if v <= usize::MAX { Some(v as usize) } else { None },
        None => None,
    }
}

/// The description of a binding in the help screen.
pub open spec fn binding_description(b: Binding) -> Seq<char> {
    match b {
        Binding::Quit => "Quit"@,
        Binding::Refresh => "Refresh the screen"@,
        Binding::Help => "Show this help"@,
        Binding::Cancel => "Close help or any open prompt"@,
        Binding::PreviousFile => "Switch to the previous file"@,
        Binding::NextFile => "Switch to the next file"@,
        Binding::ScrollToTop => "Move to the start of the file"@,
        Binding::ScrollToBottom => "Move to and follow the end of the file"@,
        Binding::ToggleLineNumbers => "Toggle line numbers"@,
        Binding::ToggleLineWrapping => "Cycle through line wrapping modes"@,
        Binding::PromptGoToLine => "Go to position in file"@,
        Binding::PromptSearchFromStart => "Search from the start of the file"@,
        Binding::PromptSearchForwards => "Search forwards"@,
        Binding::PromptSearchBackwards => "Search backwards"@,
        Binding::PreviousMatch => "Move to the previous match"@,
        Binding::NextMatch => "Move to the next match"@,
        Binding::PreviousMatchLine => "Move to the previous matching line"@,
        Binding::NextMatchLine => "Move the the next matching line"@,
        Binding::FirstMatch => "Move to the first match"@,
        Binding::LastMatch => "Move to the last match"@,
        Binding::ScrollUpLines(k) => if k == 1 { "Scroll up"@ } else { "Scroll up "@ + decimal(k as nat) + " lines"@ },
        Binding::ScrollDownLines(k) => if k == 1 { "Scroll down"@ } else { "Scroll down "@ + decimal(k as nat) + " lines"@ },
        Binding::ScrollUpScreenFraction(k) => if k == 1 { "Scroll up one screen"@ } else { "Scroll up 1/"@ + decimal(k as nat) + " screen"@ },
        Binding::ScrollDownScreenFraction(k) => if k == 1 { "Scroll down one screen"@ } else { "Scroll down 1/"@ + decimal(k as nat) + " screen"@ },
        Binding::ScrollLeftColumns(k) => if k == 1 { "Scroll left"@ } else { "Scroll left "@ + decimal(k as nat) + " columns"@ },
        Binding::ScrollRightColumns(k) => if k == 1 { "Scroll right"@ } else { "Scroll right "@ + decimal(k as nat) + " columns"@ },
        Binding::ScrollLeftScreenFraction(k) => if k == 1 { "Scroll left one screen"@ } else { "Scroll left 1/"@ + decimal(k as nat) + " screen"@ },
        Binding::ScrollRightScreenFraction(k) => if k == 1 { "Scroll right one screen"@ } else { "Scroll right 1/"@ + decimal(k as nat) + " screen"@ },
        Binding::Unrecognized(s) => "Unrecognized binding ("@ + s@ + ")"@,
    }
}

/// `one` for a count of one, else `before`, the count, and `after`.
fn counted(k: usize, one: &str, before: &str, after: &str) -> (r: String)
    ensures
        r@ == if k == 1 { one@ } else { before@ + decimal(k as nat) + after@ },
{
    if k == 1 {
        String::from_str(one)
    } else {
        let mut out = String::from_str(before);
        out.append(decimal_string(k).as_str());
        out.append(after);
        out
    }
}

/// The category of a binding.
pub open spec fn binding_category(b: Binding) -> Category {
    match b {
        Binding::Quit => Category::General,
        Binding::Refresh => Category::General,
        Binding::Help => Category::General,
        Binding::Cancel => Category::General,
        Binding::PreviousFile => Category::Navigation,
        Binding::NextFile => Category::Navigation,
        Binding::ScrollUpLines(_) => Category::Navigation,
        Binding::ScrollDownLines(_) => Category::Navigation,
        Binding::ScrollUpScreenFraction(_) => Category::Navigation,
        Binding::ScrollDownScreenFraction(_) => Category::Navigation,
        Binding::ScrollToTop => Category::Navigation,
        Binding::ScrollToBottom => Category::Navigation,
        Binding::ScrollLeftColumns(_) => Category::Navigation,
        Binding::ScrollRightColumns(_) => Category::Navigation,
        Binding::ScrollLeftScreenFraction(_) => Category::Navigation,
        Binding::ScrollRightScreenFraction(_) => Category::Navigation,
        Binding::ToggleLineNumbers => Category::Presentation,
        Binding::ToggleLineWrapping => Category::Presentation,
        Binding::PromptGoToLine => Category::Navigation,
        Binding::PromptSearchFromStart => Category::Searching,
        Binding::PromptSearchForwards => Category::Searching,
        Binding::PromptSearchBackwards => Category::Searching,
        Binding::PreviousMatch => Category::Searching,
        Binding::NextMatch => Category::Searching,
        Binding::PreviousMatchLine => Category::Searching,
        Binding::NextMatchLine => Category::Searching,
        Binding::FirstMatch => Category::Searching,
        Binding::LastMatch => Category::Searching,
        Binding::Unrecognized(_) => Category::Other,
    }
}

impl Binding {
    /// The description of the binding in the help screen.
    pub fn description(&self) -> (r: String)
        ensures
            r@ == binding_description(*self),
    {
        match self {
            Binding::Quit => String::from_str("Quit"),
            Binding::Refresh => String::from_str("Refresh the screen"),
            Binding::Help => String::from_str("Show this help"),
            Binding::Cancel => String::from_str("Close help or any open prompt"),
            Binding::PreviousFile => String::from_str("Switch to the previous file"),
            Binding::NextFile => String::from_str("Switch to the next file"),
            Binding::ScrollToTop => String::from_str("Move to the start of the file"),
            Binding::ScrollToBottom => String::from_str("Move to and follow the end of the file"),
            Binding::ToggleLineNumbers => String::from_str("Toggle line numbers"),
            Binding::ToggleLineWrapping => String::from_str("Cycle through line wrapping modes"),
            Binding::PromptGoToLine => String::from_str("Go to position in file"),
            Binding::PromptSearchFromStart => String::from_str("Search from the start of the file"),
            Binding::PromptSearchForwards => String::from_str("Search forwards"),
            Binding::PromptSearchBackwards => String::from_str("Search backwards"),
            Binding::PreviousMatch => String::from_str("Move to the previous match"),
            Binding::NextMatch => String::from_str("Move to the next match"),
            Binding::PreviousMatchLine => String::from_str("Move to the previous matching line"),
            Binding::NextMatchLine => String::from_str("Move the the next matching line"),
            Binding::FirstMatch => String::from_str("Move to the first match"),
            Binding::LastMatch => String::from_str("Move to the last match"),
            Binding::ScrollUpLines(k) => counted(*k, "Scroll up", "Scroll up ", " lines"),
            Binding::ScrollDownLines(k) => counted(*k, "Scroll down", "Scroll down ", " lines"),
            Binding::ScrollUpScreenFraction(k) => counted(*k, "Scroll up one screen", "Scroll up 1/", " screen"),
            Binding::ScrollDownScreenFraction(k) => counted(*k, "Scroll down one screen", "Scroll down 1/", " screen"),
            Binding::ScrollLeftColumns(k) => counted(*k, "Scroll left", "Scroll left ", " columns"),
            Binding::ScrollRightColumns(k) => counted(*k, "Scroll right", "Scroll right ", " columns"),
            Binding::ScrollLeftScreenFraction(k) => counted(*k, "Scroll left one screen", "Scroll left 1/", " screen"),
            Binding::ScrollRightScreenFraction(k) => counted(*k, "Scroll right one screen", "Scroll right 1/", " screen"),
            Binding::Unrecognized(s) => {
                let mut out = String::from_str("Unrecognized binding (");
                out.append(s.as_str());
                out.append(")");
                out
            },
        }
    }

    /// The category of the binding.
    pub fn category(&self) -> (r: Category)
        ensures
            r == binding_category(*self),
    {
        match self {
            Binding::Quit => Category::General,
            Binding::Refresh => Category::General,
            Binding::Help => Category::General,
            Binding::Cancel => Category::General,
            Binding::PreviousFile => Category::Navigation,
            Binding::NextFile => Category::Navigation,
            Binding::ScrollUpLines(_) => Category::Navigation,
            Binding::ScrollDownLines(_) => Category::Navigation,
            Binding::ScrollUpScreenFraction(_) => Category::Navigation,
            Binding::ScrollDownScreenFraction(_) => Category::Navigation,
            Binding::ScrollToTop => Category::Navigation,
            Binding::ScrollToBottom => Category::Navigation,
            Binding::ScrollLeftColumns(_) => Category::Navigation,
            Binding::ScrollRightColumns(_) => Category::Navigation,
            Binding::ScrollLeftScreenFraction(_) => Category::Navigation,
            Binding::ScrollRightScreenFraction(_) => Category::Navigation,
            Binding::ToggleLineNumbers => Category::Presentation,
            Binding::ToggleLineWrapping => Category::Presentation,
            Binding::PromptGoToLine => Category::Navigation,
            Binding::PromptSearchFromStart => Category::Searching,
            Binding::PromptSearchForwards => Category::Searching,
            Binding::PromptSearchBackwards => Category::Searching,
            Binding::PreviousMatch => Category::Searching,
            Binding::NextMatch => Category::Searching,
            Binding::PreviousMatchLine => Category::Searching,
            Binding::NextMatchLine => Category::Searching,
            Binding::FirstMatch => Category::Searching,
            Binding::LastMatch => Category::Searching,
            Binding::Unrecognized(_) => Category::Other,
        }
    }

    /// Read a key binding from its name and parameters.  A name that takes
    /// a count needs a first parameter that is a number; an unknown name
    /// gives `Unrecognized`.
    pub fn parse(ident: String, params: Vec<String>) -> (r: Result<Binding, BindingError>)
        ensures
            plain_binding(ident@) is Some ==> r == Ok::<Binding, BindingError>(plain_binding(ident@)->0),
            plain_binding(ident@) is None && counted_binding(ident@, 0) is Some ==> (
                if params@.len() == 0 {
                    r is Err && r->Err_0 is MissingParameter && r->Err_0->MissingParameter_ident@ == ident@
                        && r->Err_0->MissingParameter_index == 0
                } else {
                    match count_param(params@[0]@) {
                        Some(n) => r == Ok::<Binding, BindingError>(counted_binding(ident@, n)->0),
                        None => r is Err && r->Err_0 is InvalidParameter && r->Err_0->InvalidParameter_ident@ == ident@
                            && r->Err_0->InvalidParameter_index == 0,
                    }
                }
            ),
            plain_binding(ident@) is None && counted_binding(ident@, 0) is None ==> r is Ok && r->Ok_0 is Unrecognized
                && r->Ok_0->Unrecognized_0@ == ident@,
    {
        let name = ident.as_str();
        if text_eq(name, "Quit") {
            return Ok(Binding::Quit);
        }
        if text_eq(name, "Refresh") {
            return Ok(Binding::Refresh);
        }
        if text_eq(name, "Help") {
            return Ok(Binding::Help);
        }
        if text_eq(name, "Cancel") {
            return Ok(Binding::Cancel);
        }
        if text_eq(name, "PreviousFile") {
            return Ok(Binding::PreviousFile);
        }
        if text_eq(name, "NextFile") {
            return Ok(Binding::NextFile);
        }
        if text_eq(name, "ScrollToTop") {
            return Ok(Binding::ScrollToTop);
        }
        if text_eq(name, "ScrollToBottom") {
            return Ok(Binding::ScrollToBottom);
        }
        if text_eq(name, "ToggleLineNumbers") {
            return Ok(Binding::ToggleLineNumbers);
        }
        if text_eq(name, "ToggleLineWrapping") {
            return Ok(Binding::ToggleLineWrapping);
        }
        if text_eq(name, "PromptGoToLine") {
            return Ok(Binding::PromptGoToLine);
        }
        if text_eq(name, "PromptSearchFromStart") {
            return Ok(Binding::PromptSearchFromStart);
        }
        if text_eq(name, "PromptSearchForwards") {
            return Ok(Binding::PromptSearchForwards);
        }
        if text_eq(name, "PromptSearchBackwards") {
            return Ok(Binding::PromptSearchBackwards);
        }
        if text_eq(name, "PreviousMatch") {
            return Ok(Binding::PreviousMatch);
        }
        if text_eq(name, "NextMatch") {
            return Ok(Binding::NextMatch);
        }
        if text_eq(name, "PreviousMatchLine") {
            return Ok(Binding::PreviousMatchLine);
        }
        if text_eq(name, "NextMatchLine") {
            return Ok(Binding::NextMatchLine);
        }
        if text_eq(name, "FirstMatch") {
            return Ok(Binding::FirstMatch);
        }
        if text_eq(name, "LastMatch") {
            return Ok(Binding::LastMatch);
        }
        let count = if params.len() == 0 { None } else { parse_usize(params[0].as_str()) };
        if text_eq(name, "ScrollUpLines") {
            return match count {
                Some(c) => Ok(Binding::ScrollUpLines(c)),
                None => Err(parameter_error(ident, params.len() == 0)),
            };
        }
        if text_eq(name, "ScrollDownLines") {
            return match count {
                Some(c) => Ok(Binding::ScrollDownLines(c)),
                None => Err(parameter_error(ident, params.len() == 0)),
            };
        }
        if text_eq(name, "ScrollUpScreenFraction") {
            return match count {
                Some(c) => Ok(Binding::ScrollUpScreenFraction(c)),
                None => Err(parameter_error(ident, params.len() == 0)),
            };
        }
        if text_eq(name, "ScrollDownScreenFraction") {
            return match count {
                Some(c) => Ok(Binding::ScrollDownScreenFraction(c)),
                None => Err(parameter_error(ident, params.len() == 0)),
            };
        }
        if text_eq(name, "ScrollLeftColumns") {
            return match count {
                Some(c) => Ok(Binding::ScrollLeftColumns(c)),
                None => Err(parameter_error(ident, params.len() == 0)),
            };
        }
        if text_eq(name, "ScrollRightColumns") {
            return match count {
                Some(c) => Ok(Binding::ScrollRightColumns(c)),
                None => Err(parameter_error(ident, params.len() == 0)),
            };
        }
        if text_eq(name, "ScrollLeftScreenFraction") {
            return match count {
                Some(c) => Ok(Binding::ScrollLeftScreenFraction(c)),
                None => Err(parameter_error(ident, params.len() == 0)),
            };
        }
        if text_eq(name, "ScrollRightScreenFraction") {
            return match count {
                Some(c) => Ok(Binding::ScrollRightScreenFraction(c)),
                None => Err(parameter_error(ident, params.len() == 0)),
            };
        }
        Ok(Binding::Unrecognized(ident))
    }
}

/// The error for a missing or unreadable first parameter.
fn parameter_error(ident: String, missing: bool) -> (r: BindingError)
    ensures
        missing ==> r is MissingParameter && r->MissingParameter_ident@ == ident@ && r->MissingParameter_index == 0,
        !missing ==> r is InvalidParameter && r->InvalidParameter_ident@ == ident@ && r->InvalidParameter_index == 0,
{
    if missing {
        BindingError::MissingParameter { ident, index: 0 }
    } else {
        BindingError::InvalidParameter { ident, index: 0 }
    }
}

/// A binding to a key, and whether the help screen shows it.
#[derive(Clone, Debug)]
pub struct BindingConfig {
    /// The binding.
    pub binding: Binding,
    /// Whether this binding is visible in the help screen.
    pub visible: bool,
}

impl BindingConfig {
    /// A binding config.
    pub fn new(binding: Binding, visible: bool) -> (r: BindingConfig)
        ensures
            r.binding == binding,
            r.visible == visible,
    {
        BindingConfig { binding, visible }
    }
}

} // verus!
