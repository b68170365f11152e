//! Synthetic typing: which tool types the text, and the command lines that
//! type text or press Backspace.
use vstd::prelude::*;
use vstd::string::{StrSliceExecFns, StringExecFns};
use crate::text::{decimal, trim, trim_str, usize_to_string};

verus! {

/// Which typing tools are installed.
#[derive(Clone, Copy)]
pub struct ToolAvailability {
    pub wtype: bool,
    pub ydotool: bool,
    pub xdotool: bool,
}

/// Why nothing can be typed.
#[derive(Debug)]
pub enum TypeError {
    /// No text to type (transcription empty).
    EmptyText,
    /// No typing tool found: install one of wtype, ydotool, or xdotool.
    NoTool,
}

impl TypeError {
    /// The error's text.
    pub fn message(&self) -> (s: String)
        ensures
            s@ == match *self {
                TypeError::EmptyText => "No text to type (transcription empty)"@,
                TypeError::NoTool => "No typing tool found. Install one of: wtype, ydotool, or xdotool"@,
            },
    {
        match self {
            TypeError::EmptyText => String::from_str("No text to type (transcription empty)"),
            TypeError::NoTool => String::from_str(
                "No typing tool found. Install one of: wtype, ydotool, or xdotool",
            ),
        }
    }
}

/// The characters of each command-line word.
pub open spec fn argv_view(v: Seq<String>) -> Seq<Seq<char>> {
    v.map_values(|s: String| s@)
}

/// The command that types `text`: wtype when installed, else ydotool, else
/// xdotool.
pub open spec fn spec_type_command(text: Seq<char>, tools: ToolAvailability) -> Option<Seq<Seq<char>>> {
    if tools.wtype {
        Some(seq!["wtype"@, text])
    } else if tools.ydotool {
        Some(seq!["ydotool"@, "type"@, "--"@, text])
    } else if tools.xdotool {
        Some(seq!["xdotool"@, "type"@, "--clearmodifiers"@, "--"@, text])
    } else {
        None
    }
}

fn word(s: &str) -> (w: String)
    ensures
        w@ == s@,
{
    String::from_str(s)
}

/// The command line that types `text`, or why there is none: blank text is
/// never typed.
pub fn type_text_auto(text: &str, tools: ToolAvailability) -> (r: Result<Vec<String>, TypeError>)
    ensures
        match r {
            Ok(argv) => trim(text@).len() > 0 && spec_type_command(text@, tools) == Some(
                argv_view(argv@),
            ),
            Err(TypeError::EmptyText) => trim(text@).len() == 0,
            Err(TypeError::NoTool) => trim(text@).len() > 0 && spec_type_command(text@, tools)
                is None,
        },
        r matches Ok(argv) ==> argv@.len() >= 2 && argv@.last()@ == text@,
{
    if trim_str(text).is_empty() {
        return Err(TypeError::EmptyText);
    }
    let mut v: Vec<String> = Vec::new();
    if tools.wtype {
        v.push(word("wtype"));
        v.push(word(text));
    } else if tools.ydotool {
        v.push(word("ydotool"));
        v.push(word("type"));
        v.push(word("--"));
        v.push(word(text));
    } else if tools.xdotool {
        v.push(word("xdotool"));
        v.push(word("type"));
        v.push(word("--clearmodifiers"));
        v.push(word("--"));
        v.push(word(text));
    } else {
        return Err(TypeError::NoTool);
    }
    assert(spec_type_command(text@, tools) == Some(argv_view(v@))) by {
        assert(argv_view(v@) =~= spec_type_command(text@, tools)->Some_0);
    }
    Ok(v)
}

/// The text is handed to the typing tool exactly as given: whenever a tool
/// is installed, the command is that tool's, ends with `text` itself
/// (whitespace and all, so a delta such as " world" keeps its leading
/// space) and carries it in no other argument.
pub proof fn lemma_type_command_passes_text(text: Seq<char>, tools: ToolAvailability)
    requires
        tools.wtype || tools.ydotool || tools.xdotool,
    ensures
        spec_type_command(text, tools) matches Some(argv) && {
            &&& argv.len() >= 2
            &&& argv.last() == text
            &&& argv[0] == if tools.wtype {
                "wtype"@
            } else if tools.ydotool {
                "ydotool"@
            } else {
                "xdotool"@
            }
            &&& forall|i: int| 1 <= i < argv.len() - 1 ==> (#[trigger] argv[i])[0] == '-'
                || argv[i] == "type"@
        },
{
    reveal_strlit("--");
    reveal_strlit("--clearmodifiers");
    reveal_strlit("type");
}

/// `n` repetitions of wtype's Backspace key argument pair.
pub open spec fn wtype_backspaces(n: nat) -> Seq<Seq<char>>
    decreases n,
{
    if n == 0 {
        Seq::empty()
    } else {
        wtype_backspaces((n - 1) as nat) + seq!["-k"@, "BackSpace"@]
    }
}

/// The command that presses Backspace `n` times: wtype sends one key event
/// per press with a 20 ms delay, ydotool repeats key code 14 down/up, xdotool
/// repeats BackSpace.
pub open spec fn spec_backspace_command(n: nat, tools: ToolAvailability) -> Option<Seq<Seq<char>>> {
    if tools.wtype {
        Some(seq!["wtype"@, "-d"@, "20"@] + wtype_backspaces(n))
    } else if tools.ydotool {
        Some(seq!["ydotool"@, "key"@, "--repeat"@, decimal(n), "14:1"@, "14:0"@])
    } else if tools.xdotool {
        Some(seq!["xdotool"@, "key"@, "--repeat"@, decimal(n), "--clearmodifiers"@, "BackSpace"@])
    } else {
        None
    }
}

/// The command line that presses Backspace `n` times (`None` for zero
/// presses), or why there is none.
pub fn backspace(n: usize, tools: ToolAvailability) -> (r: Result<Option<Vec<String>>, TypeError>)
    ensures
        match r {
            Ok(None) => n == 0,
            Ok(Some(argv)) => n > 0 && spec_backspace_command(n as nat, tools) == Some(
                argv_view(argv@),
            ),
            Err(TypeError::NoTool) => n > 0 && spec_backspace_command(n as nat, tools) is None,
            Err(TypeError::EmptyText) => false,
        },
{
    if n == 0 {
        return Ok(None);
    }
    let mut v: Vec<String> = Vec::new();
    if tools.wtype {
        v.push(word("wtype"));
        v.push(word("-d"));
        v.push(word("20"));
        let mut i: usize = 0;
        while i < n
            invariant
                i <= n,
                argv_view(v@) == seq!["wtype"@, "-d"@, "20"@] + wtype_backspaces(i as nat),
            decreases n - i,
        {
            let ghost prev = argv_view(v@);
            v.push(word("-k"));
            v.push(word("BackSpace"));
            assert(argv_view(v@) =~= prev.push("-k"@).push("BackSpace"@));
            i = i + 1;
            assert(argv_view(v@) =~= seq!["wtype"@, "-d"@, "20"@] + wtype_backspaces(i as nat));
        }
    } else if tools.ydotool {
        v.push(word("ydotool"));
        v.push(word("key"));
        v.push(word("--repeat"));
        v.push(usize_to_string(n));
        v.push(word("14:1"));
        v.push(word("14:0"));
        assert(argv_view(v@) =~= spec_backspace_command(n as nat, tools)->Some_0);
    } else if tools.xdotool {
        v.push(word("xdotool"));
        v.push(word("key"));
        v.push(word("--repeat"));
        v.push(usize_to_string(n));
        v.push(word("--clearmodifiers"));
        v.push(word("BackSpace"));
        assert(argv_view(v@) =~= spec_backspace_command(n as nat, tools)->Some_0);
    } else {
        return Err(TypeError::NoTool);
    }
    Ok(Some(v))
}

} // verus!
