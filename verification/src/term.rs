//! When to color the output: `--color`, else `CARGO_TERM_COLOR`, else
//! automatically, where a terminal that cannot show colors stays plain.

use vstd::prelude::*;

use crate::error::Error;
use crate::text::str_eq;

verus! {

/// When to color the output.
#[derive(Clone, Copy, PartialEq, Eq, Structural, Debug)]
pub enum Coloring {
    Auto,
    Always,
    Never,
}

/// How a coloring is written, or the complaint about text that is none.
pub open spec fn spec_coloring(s: Seq<char>) -> Result<Coloring, Seq<char>> {
    if s == "auto"@ {
        Ok(Coloring::Auto)
    } else if s == "always"@ {
        Ok(Coloring::Always)
    } else if s == "never"@ {
        Ok(Coloring::Never)
    } else {
        Err("must be auto, always, or never, but found `"@ + s + "`"@)
    }
}

impl Coloring {
    /// Reads `auto`, `always` or `never`.
    pub fn from_str(s: &str) -> (res: Result<Coloring, String>)
        ensures
            match res {
                Ok(c) => spec_coloring(s@) == Ok::<Coloring, Seq<char>>(c),
                Err(e) => spec_coloring(s@) == Err::<Coloring, Seq<char>>(e@),
            },
    {
        if str_eq(s, "auto") {
            Ok(Coloring::Auto)
        } else if str_eq(s, "always") {
            Ok(Coloring::Always)
        } else if str_eq(s, "never") {
            Ok(Coloring::Never)
        } else {
            let mut m = String::from_str("must be auto, always, or never, but found `");
            m.append(s);
            m.append("`");
            Err(m)
        }
    }
}

/// The coloring asked for: by `--color`, else by the `CARGO_TERM_COLOR`
/// variable, else automatic; text that names no coloring is an error that
/// says where it came from.
pub open spec fn spec_coloring_choice(color: Option<Seq<char>>, env: Option<Seq<char>>) -> Result<Coloring, Seq<char>> {
    match color {
        Some(c) => match spec_coloring(c) {
            Ok(k) => Ok(k),
            Err(e) => Err("argument for --color "@ + e),
        },
        None => match env {
            Some(c) => match spec_coloring(c) {
                Ok(k) => Ok(k),
                Err(e) => Err("CARGO_TERM_COLOR "@ + e),
            },
            None => Ok(Coloring::Auto),
        },
    }
}

/// The coloring asked for by `--color` or by `CARGO_TERM_COLOR`.
pub fn coloring_choice(color: Option<&str>, env: Option<&str>) -> (res: Result<Coloring, Error>)
    ensures
        match res {
            Ok(c) => spec_coloring_choice(crate::cli::sub_view(color), crate::cli::sub_view(env)) == Ok::<
                Coloring,
                Seq<char>,
            >(c),
            Err(e) => spec_coloring_choice(crate::cli::sub_view(color), crate::cli::sub_view(env))
                == Err::<Coloring, Seq<char>>(e@),
        },
{
    match color {
        Some(c) => match Coloring::from_str(c) {
            Ok(k) => Ok(k),
            Err(e) => {
                let mut m = String::from_str("argument for --color ");
                m.append(e.as_str());
                Err(Error::msg(m))
            },
        },
        None => match env {
            Some(c) => match Coloring::from_str(c) {
                Ok(k) => Ok(k),
                Err(e) => {
                    let mut m = String::from_str("CARGO_TERM_COLOR ");
                    m.append(e.as_str());
                    Err(Error::msg(m))
                },
            },
            None => Ok(Coloring::Auto),
        },
    }
}

/// The coloring once `new` is asked for: automatic coloring keeps a
/// coloring that was turned off because the output is no terminal.
pub fn next_coloring(current: Coloring, new: Coloring) -> (res: Coloring)
    ensures
        res == (if new == Coloring::Auto && current == Coloring::Never {
            current
        } else {
            new
        }),
{
    if new == Coloring::Auto && current == Coloring::Never {
        current
    } else {
        new
    }
}

} // verus!
