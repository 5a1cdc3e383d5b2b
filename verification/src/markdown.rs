//! The note: rendered by the Markdown renderer, with the plain text as the
//! fallback when the renderer is missing or fails.

use vstd::prelude::*;

use crate::text::{blank, decimal_text, is_blank, push_decimal, strings_view, trim_end, trim_end_text};
use crate::ui::{printable, printable_text};

verus! {

/// Whether there is a note to show at all.
pub fn has_note(text: &str) -> (r: bool)
    ensures
        r == !is_blank(text@),
{
    !blank(text)
}

/// The note as plain text: printable, without trailing whitespace.
pub fn plain_note(text: &str) -> (r: String)
    ensures
        r@ == trim_end_text(printable_text(text@)),
{
    let shown = printable(text);
    trim_end(shown.as_str())
}

/// The renderer's arguments: no pager, no loading bars, the wrap width (at
/// least 20 columns) with the height left to the renderer, colours forced
/// when stderr is a terminal (`-c`) and dropped otherwise (`-C`), since the
/// renderer's own stdout is a pipe; and the light theme when the caller
/// asks for it.
pub open spec fn renderer_args_of(width: usize, tty: bool, light: bool) -> Seq<Seq<char>> {
    let columns: nat = if width < 20 { 20 } else { width as nat };
    let base = seq!["-P"@, "--silent"@, "--sc"@, decimal_text(columns) + "xauto"@, if tty {
        "-c"@
    } else {
        "-C"@
    }];
    if light {
        base + seq!["--theme"@, "makurai-light"@]
    } else {
        base
    }
}

/// `light` is for a terminal with a light background when `MCAT_THEME` is
/// not set; the caller finds that out.
pub fn renderer_args(width: usize, tty: bool, light: bool) -> (r: Vec<String>)
    ensures
        strings_view(r@) == renderer_args_of(width, tty, light),
{
    let columns = if width < 20 { 20 } else { width };
    let mut size = String::new();
    push_decimal(&mut size, columns as u64);
    size.append("xauto");
    let mut args: Vec<String> = Vec::new();
    args.push("-P".to_owned());
    args.push("--silent".to_owned());
    args.push("--sc".to_owned());
    args.push(size);
    if tty {
        args.push("-c".to_owned());
    } else {
        args.push("-C".to_owned());
    }
    if light {
        args.push("--theme".to_owned());
        args.push("makurai-light".to_owned());
    }
    assert(strings_view(args@) =~= renderer_args_of(width, tty, light));
    args
}

} // verus!
