use vstd::prelude::*;

verus! {

/// Settings of one print call.
#[derive(Clone, Copy)]
pub struct Config {
    /// Styled output; `None` leaves the choice to the caller's terminal.
    pub colors: Option<bool>,
    /// Spaces per nesting level.
    pub indent: usize,
    /// Strings holding a line break are written as they are.
    pub expand_strings: bool,
    /// Target line width; `None` means 80.
    pub max_width: Option<usize>,
    /// Fields flagged implicit are shown too.
    pub implicit_properties: bool,
    /// Containers show at most this many elements.
    pub max_items: Option<usize>,
}

pub open spec fn width_of(cfg: Config) -> int {
    match cfg.max_width {
        Some(w) => w as int,
        None => 80,
    }
}

impl Config {
    pub fn new() -> (r: Config)
        ensures
            r.colors is None,
            r.indent == 2,
            !r.expand_strings,
            r.max_width is None,
            !r.implicit_properties,
            r.max_items is None,
    {
        Config {
            colors: None,
            indent: 2,
            expand_strings: false,
            max_width: None,
            implicit_properties: false,
            max_items: None,
        }
    }

    pub fn colors(self, colors: bool) -> (r: Config)
        ensures
            r == (Config { colors: Some(colors), ..self }),
    {
        Config { colors: Some(colors), ..self }
    }

    pub fn indent(self, indent: usize) -> (r: Config)
        ensures
            r == (Config { indent, ..self }),
    {
        Config { indent, ..self }
    }

    pub fn expand_strings(self, expand: bool) -> (r: Config)
        ensures
            r == (Config { expand_strings: expand, ..self }),
    {
        Config { expand_strings: expand, ..self }
    }

    pub fn max_width(self, width: usize) -> (r: Config)
        ensures
            r == (Config { max_width: Some(width), ..self }),
    {
        Config { max_width: Some(width), ..self }
    }

    pub fn implicit_properties(self, show: bool) -> (r: Config)
        ensures
            r == (Config { implicit_properties: show, ..self }),
    {
        Config { implicit_properties: show, ..self }
    }

    pub fn max_items(self, limit: usize) -> (r: Config)
        ensures
            r == (Config { max_items: Some(limit), ..self }),
    {
        Config { max_items: Some(limit), ..self }
    }

    /// The line width that output is laid out for.
    pub fn width(&self) -> (r: usize)
        ensures
            r == width_of(*self),
    {
        match self.max_width {
            Some(w) => w,
            None => 80,
        }
    }
}

} // verus!
