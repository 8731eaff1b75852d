//! Process-level errors: a coded error with a category and a message, and
//! the usage error raised for bad command-line invocations.
//!
//! The library composes the report line and the exit code; printing the
//! line and ending the process are the caller's business.

use vstd::prelude::*;
use vstd::string::*;

use crate::error_fmt::{dec_str_signed, i32_to_string};

verus! {

/// The report line of a coded error: its code, its category, its message.
pub open spec fn report_line_of(code: int, error_type: Seq<char>, message: Seq<char>) -> Seq<
    char,
> {
    "["@ + dec_str_signed(code) + "]["@ + error_type + "] "@ + message
}

/// The text of a usage error: which of the fixed complaints, composed with
/// the offending arguments.
pub open spec fn usage_message(ctx: Seq<Seq<char>>, code: int) -> Seq<char> {
    if code == 1 {
        "Too many args. "@ + join_spaces(ctx, 0)
    } else if code == 2 {
        "Invalid file path: "@ + ctx[2]
    } else {
        "Invalid error code."@
    }
}

/// The texts from position `i` on, joined with single spaces.
pub open spec fn join_spaces(ctx: Seq<Seq<char>>, i: int) -> Seq<char>
    decreases ctx.len() - i,
{
    if 0 <= i < ctx.len() {
        if i == ctx.len() - 1 {
            ctx[i]
        } else {
            ctx[i] + " "@ + join_spaces(ctx, i + 1)
        }
    } else {
        Seq::empty()
    }
}

/// A coded error: what went wrong, its category, and the exit code it
/// carries.
#[derive(Debug)]
pub struct Error {
    pub message: String,
    pub code: i32,
    pub error_type: String,
}

impl Error {
    pub fn new(message: String, error_type: String, code: i32) -> (r: Self)
        ensures
            r.message == message,
            r.error_type == error_type,
            r.code == code,
    {
        Error { message, error_type, code }
    }

    /// The line a caller reports before ending the process.
    pub fn report_line(&self) -> (r: String)
        ensures
            r@ == report_line_of(self.code as int, self.error_type@, self.message@),
    {
        let mut out = String::from_str("[");
        let code_text = i32_to_string(self.code);
        out.append(code_text.as_str());
        out.append("][");
        out.append(self.error_type.as_str());
        out.append("] ");
        out.append(self.message.as_str());
        out
    }

    /// The exit code the error carries.
    pub fn code(&self) -> (r: i32)
        ensures
            r == self.code,
    {
        self.code
    }
}

/// A bad command-line invocation: too many arguments, or a file path that
/// could not be read.
#[derive(Debug)]
pub struct UsageError {
    pub error: Error,
}

impl UsageError {
    /// Composes the usage error for complaint `code`: 1 for too many
    /// arguments (the context is echoed), 2 for an invalid file path (the
    /// third context entry names it).  The error's own exit code is 1.
    pub fn throw(context: Vec<String>, code: i32) -> (r: UsageError)
        requires
            code == 2 ==> context@.len() >= 3,
        ensures
            r.error.code == 1,
            r.error.error_type@ == "UsageError"@,
            r.error.message@ == usage_message(context.deep_view(), code as int),
    {
        let message: String;
        if code == 1 {
            let mut m = String::from_str("Too many args. ");
            let joined = join_with_spaces(&context);
            m.append(joined.as_str());
            message = m;
        } else if code == 2 {
            message = String::from_str("Invalid file path: ").concat(context[2].as_str());
            proof {
                assert(context.deep_view()[2] == context@[2]@);
            }
        } else {
            message = String::from_str("Invalid error code.");
        }
        UsageError { error: Error::new(message, String::from_str("UsageError"), 1) }
    }
}

/// The given texts joined with single spaces.
fn join_with_spaces(items: &Vec<String>) -> (r: String)
    ensures
        r@ == join_spaces(items.deep_view(), 0),
{
    let ghost ctx = items.deep_view();
    let mut out = String::new();
    let mut i: usize = 0;
    proof {
        reveal_strlit(" ");
    }
    proof {
        assert(out@ + join_spaces(ctx, 0) =~= join_spaces(ctx, 0));
    }
    while i < items.len()
        invariant
            i <= items.len(),
            ctx == items.deep_view(),
            ctx.len() == items@.len(),
            forall|k: int| 0 <= k < ctx.len() ==> ctx[k] == items@[k]@,
            out@ + join_spaces(ctx, i as int) == join_spaces(ctx, 0),
        decreases items.len() - i,
    {
        let ghost out0 = out@;
        out.append(items[i].as_str());
        if i + 1 < items.len() {
            out.append(" ");
        }
        proof {
            if i + 1 < items.len() {
                assert(out@ + join_spaces(ctx, i as int + 1) =~= out0 + join_spaces(
                    ctx,
                    i as int,
                ));
            } else {
                assert(join_spaces(ctx, i as int + 1) == Seq::<char>::empty());
                assert(out@ + join_spaces(ctx, i as int + 1) =~= out0 + join_spaces(
                    ctx,
                    i as int,
                ));
            }
        }
        i = i + 1;
    }
    proof {
        assert(out@ + join_spaces(ctx, items@.len() as int) =~= out@);
    }
    out
}

} // verus!
