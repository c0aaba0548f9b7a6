//! Reports of failures: what was checked, what remained, and messages.

use vstd::prelude::*;
use crate::config::Config;
use crate::model::{render, CheckFailureInfo, TestFailReason};
use crate::text::{
    chars_for_bytes, chars_of, lemma_lines_of_len, lines, lines_of, push_signed_decimal, push_str,
    signed_decimal, string_from, string_of, utf8_len,
};
use crate::util::{
    decorate_with_line_numbers, indent, indented, default_indent_atom, truncate_to_max_lines,
    truncated, with_line_numbers, TruncateDirection,
};

verus! {

impl CheckFailureInfo {
    /// The byte index lies on a character boundary of the output, whose
    /// length leaves room to count its lines.
    pub open spec fn wf(&self) -> bool {
        &&& self.complete_output_text@.len() + 2 <= usize::MAX
        &&& exists|k: int|
            0 <= k <= self.complete_output_text@.len() && utf8_len(
                self.complete_output_text@.take(k),
            ) == self.successfully_checked_until_byte_index
    }

    /// The number of characters checked successfully.
    pub open spec fn checked_len(&self) -> int {
        choose|k: int|
            0 <= k <= self.complete_output_text@.len() && utf8_len(
                self.complete_output_text@.take(k),
            ) == self.successfully_checked_until_byte_index
    }

    fn checked_chars(&self) -> (r: usize)
        requires
            self.wf(),
        ensures
            r == self.checked_len(),
            r <= self.complete_output_text@.len(),
    {
        let v = chars_of(self.complete_output_text.as_str());
        proof {
            assert(v@.subrange(0, v@.len() as int) =~= v@);
        }
        let k = chars_for_bytes(&v, 0, self.successfully_checked_until_byte_index);
        proof {
            crate::text::lemma_utf8_len_injective(v@, k as int, self.checked_len());
        }
        k
    }

    /// Gets the portion of successfully checked text.
    pub fn successfully_checked_text(&self) -> (r: String)
        requires
            self.wf(),
        ensures
            r@ == self.complete_output_text@.take(self.checked_len()),
    {
        let k = self.checked_chars();
        let v = chars_of(self.complete_output_text.as_str());
        let r = string_of(&v, 0, k);
        proof {
            assert(r@ =~= self.complete_output_text@.take(self.checked_len()));
        }
        r
    }

    /// Gets the portion of unchecked, remaining text.
    pub fn remaining_text(&self) -> (r: String)
        requires
            self.wf(),
        ensures
            r@ == self.complete_output_text@.skip(self.checked_len()),
    {
        let k = self.checked_chars();
        let v = chars_of(self.complete_output_text.as_str());
        let r = string_of(&v, k, v.len());
        proof {
            assert(r@ =~= self.complete_output_text@.skip(self.checked_len()));
        }
        r
    }

    /// The number of the line where the unchecked text begins.
    pub fn successfully_checked_upto_line_number(&self) -> (r: usize)
        requires
            self.wf(),
        ensures
            r == lines_of(self.complete_output_text@.take(self.checked_len())).len() + 1,
    {
        let t = self.successfully_checked_text();
        let v = chars_of(t.as_str());
        let ls = lines(&v);
        proof {
            lemma_lines_of_len(t@);
        }
        ls.len() + 1
    }
}

/// A block of program output for a report: numbered from `first`, cut to
/// `limit` lines when there is a limit, indented, and framed by tags.
pub open spec fn test_output_block(
    label: Seq<char>,
    text: Seq<char>,
    first: nat,
    dir: TruncateDirection,
    limit: Option<usize>,
) -> Seq<char> {
    let numbered = with_line_numbers(text, first);
    let cut = match limit {
        Some(max) => truncated(numbered, max as nat, dir),
        None => numbered,
    };
    "<"@ + label + ">:\n\n"@ + indented(cut, 1, default_indent_atom()) + "\n</"@ + label + ">"@
}

/// Formats program output for a report.
pub fn format_test_output(
    output_label: &str,
    unformatted_output: &str,
    output_base_line_number: usize,
    truncate_direction: TruncateDirection,
    config: &Config,
) -> (r: String)
    requires
        output_base_line_number + lines_of(unformatted_output@).len() <= usize::MAX,
    ensures
        r@ == test_output_block(
            output_label@,
            unformatted_output@,
            output_base_line_number as nat,
            truncate_direction,
            config.truncate_output_context_to_number_of_lines,
        ),
{
    let mut formatted = decorate_with_line_numbers(unformatted_output, output_base_line_number);
    match config.truncate_output_context_to_number_of_lines {
        Some(max) => {
            formatted = truncate_to_max_lines(formatted.as_str(), max, truncate_direction);
        },
        None => {},
    }
    let body = indent(formatted.as_str(), 1);
    let mut r = string_from("<");
    push_str(&mut r, output_label);
    push_str(&mut r, ">:\n\n");
    push_str(&mut r, body.as_str());
    push_str(&mut r, "\n</");
    push_str(&mut r, output_label);
    push_str(&mut r, ">");
    proof {
        assert(r@ =~= test_output_block(
            output_label@,
            unformatted_output@,
            output_base_line_number as nat,
            truncate_direction,
            config.truncate_output_context_to_number_of_lines,
        ));
    }
    r
}

/// The detailed message for a failure.
pub open spec fn detail_message(reason: TestFailReason, limit: Option<usize>) -> Seq<char> {
    match reason {
        TestFailReason::UnsuccessfulExecution { program_command_line, exit_status } => "command '"@
            + program_command_line@ + "' exited with code '"@ + signed_decimal(exit_status as int)
            + "'"@,
        TestFailReason::CheckFailed(info) => {
            let k = info.checked_len();
            let checked = info.complete_output_text@.take(k);
            let remaining = info.complete_output_text@.skip(k);
            "expected text '"@ + render(info.expected_pattern@) + "' but that was not found\n\n"@
                + test_output_block(
                "successfully checked output"@,
                checked,
                1,
                TruncateDirection::Top,
                limit,
            ) + "\n\n"@ + test_output_block(
                "remaining unchecked output"@,
                remaining,
                lines_of(checked).len() + 1,
                TruncateDirection::Bottom,
                limit,
            ) + "\n"@
        },
    }
}

impl TestFailReason {
    /// A message that explains the failure in detail.
    pub fn human_detail_message(&self, config: &Config) -> (r: String)
        requires
            self matches TestFailReason::CheckFailed(info) ==> info.wf(),
        ensures
            r@ == detail_message(*self, config.truncate_output_context_to_number_of_lines),
    {
        match self {
            TestFailReason::UnsuccessfulExecution { program_command_line, exit_status } => {
                let mut m = string_from("command '");
                push_str(&mut m, program_command_line.as_str());
                push_str(&mut m, "' exited with code '");
                push_signed_decimal(&mut m, *exit_status as i64);
                push_str(&mut m, "'");
                m
            },
            TestFailReason::CheckFailed(info) => {
                let mut m = string_from("expected text '");
                let shown = info.expected_pattern.to_string();
                push_str(&mut m, shown.as_str());
                push_str(&mut m, "' but that was not found\n\n");
                let checked = info.successfully_checked_text();
                let remaining = info.remaining_text();
                let upto = info.successfully_checked_upto_line_number();
                proof {
                    lemma_lines_of_len(checked@);
                    lemma_lines_of_len(remaining@);
                }
                let a = format_test_output(
                    "successfully checked output",
                    checked.as_str(),
                    1,
                    TruncateDirection::Top,
                    config,
                );
                push_str(&mut m, a.as_str());
                push_str(&mut m, "\n\n");
                let b = format_test_output(
                    "remaining unchecked output",
                    remaining.as_str(),
                    upto,
                    TruncateDirection::Bottom,
                    config,
                );
                push_str(&mut m, b.as_str());
                push_str(&mut m, "\n");
                m
            },
        }
    }
}

} // verus!
