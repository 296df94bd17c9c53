//! Checks that clicks put the cursor where they should and that scrolling
//! moves the viewport by the amount scrolled; mismatches are recorded.

use crate::debug_overlay::pair_text;
use crate::kitty_native::literal;
use crate::text_format::{decimal, push_decimal, push_signed, push_str, signed_decimal};
use vstd::prelude::*;

verus! {

/// A recorded mismatch.
#[derive(Debug)]
pub struct CoordinateIssue {
    pub issue_type: IssueType,
    pub expected: (usize, usize),
    pub actual: (usize, usize),
    pub context: String,
}

/// What kind of mismatch was found.
#[derive(Debug, Clone, Copy, PartialEq, Eq, Structural)]
pub enum IssueType {
    CursorMismatch,
    ViewportDrift,
    ClickPositionWrong,
    SelectionCorrupted,
}

impl Clone for CoordinateIssue {
    fn clone(&self) -> (r: Self)
        ensures
            r.issue_type == self.issue_type,
            r.expected == self.expected,
            r.actual == self.actual,
            r.context@ == self.context@,
    {
        CoordinateIssue {
            issue_type: self.issue_type,
            expected: self.expected,
            actual: self.actual,
            context: self.context.clone(),
        }
    }
}

/// Keeps the last click and cursor seen, and the mismatches found.
pub struct CoordinateValidator {
    last_click: Option<(u16, u16)>,
    last_cursor: Option<(usize, usize)>,
    issues: Vec<CoordinateIssue>,
}

/// The message recorded when a click did not put the cursor where expected.
pub open spec fn click_context(
    click_x: u16,
    click_y: u16,
    viewport_x: usize,
    viewport_y: usize,
    expected: (usize, usize),
    actual: (usize, usize),
) -> Seq<char> {
    "Click"@ + pair_text(click_x as nat, click_y as nat) + " + Viewport"@ + pair_text(
        viewport_x as nat,
        viewport_y as nat,
    ) + " should put cursor at "@ + pair_text(expected.0 as nat, expected.1 as nat)
        + ", but it's at "@ + pair_text(actual.0 as nat, actual.1 as nat)
}

/// `"(a,b)"` for signed numbers.
pub open spec fn signed_pair_text(a: int, b: int) -> Seq<char> {
    seq!['('] + signed_decimal(a) + seq![','] + signed_decimal(b) + seq![')']
}

/// The message recorded when the viewport did not move by the amount
/// scrolled.
pub open spec fn drift_context(
    scroll: (i32, i32),
    old_viewport: (usize, usize),
    new_viewport: (usize, usize),
    expected: (usize, usize),
) -> Seq<char> {
    "Viewport drift: scrolled "@ + signed_pair_text(scroll.0 as int, scroll.1 as int) + " from "@
        + pair_text(old_viewport.0 as nat, old_viewport.1 as nat) + " but got "@ + pair_text(
        new_viewport.0 as nat,
        new_viewport.1 as nat,
    ) + " instead of "@ + pair_text(expected.0 as nat, expected.1 as nat)
}

/// The viewport coordinate expected after scrolling `amount` from `old`:
/// the old coordinate as an `i32` (truncated) plus the amount, but not below
/// zero.
pub open spec fn scrolled(old: usize, amount: i32) -> int {
    let v = (old as i32) as int + amount as int;
    if v < 0 {
        0
    } else {
        v
    }
}

fn push_pair(s: &mut String, a: u64, b: u64)
    ensures
        final(s)@ == old(s)@ + pair_text(a as nat, b as nat),
{
    s.push('(');
    push_decimal(s, a);
    s.push(',');
    push_decimal(s, b);
    s.push(')');
    assert(final(s)@ =~= old(s)@ + pair_text(a as nat, b as nat));
}

impl CoordinateValidator {
    /// The mismatches recorded so far, oldest first.
    pub closed spec fn issues_view(&self) -> Seq<CoordinateIssue> {
        self.issues@
    }

    /// The last click recorded.
    pub closed spec fn last_click_view(&self) -> Option<(u16, u16)> {
        self.last_click
    }

    /// A validator with nothing recorded.
    pub fn new() -> (v: Self)
        ensures
            v.issues_view().len() == 0,
            v.last_click_view() is None,
    {
        CoordinateValidator { last_click: None, last_cursor: None, issues: Vec::new() }
    }

    /// The mismatches recorded so far.
    pub fn issues(&self) -> (r: &Vec<CoordinateIssue>)
        ensures
            r@ == self.issues_view(),
    {
        &self.issues
    }

    /// The last click recorded.
    pub fn last_click(&self) -> (r: Option<(u16, u16)>)
        ensures
            r == self.last_click_view(),
    {
        self.last_click
    }

    /// Records the last click.
    pub fn set_last_click(&mut self, click: Option<(u16, u16)>)
        ensures
            final(self).last_click_view() == click,
            final(self).issues_view() == old(self).issues_view(),
    {
        self.last_click = click;
    }

    /// Checks that a click at `(click_x, click_y)` with the viewport at
    /// `(viewport_x, viewport_y)` put the cursor at row `click_y +
    /// viewport_y`, column `click_x + viewport_x`. On a mismatch a
    /// `CursorMismatch` issue is recorded and `false` returned.
    pub fn validate_click_to_cursor(
        &mut self,
        click_x: u16,
        click_y: u16,
        cursor_row: usize,
        cursor_col: usize,
        viewport_x: usize,
        viewport_y: usize,
    ) -> (ok: bool)
        requires
            click_y + viewport_y <= usize::MAX,
            click_x + viewport_x <= usize::MAX,
        ensures
            ok == (cursor_row == click_y + viewport_y && cursor_col == click_x + viewport_x),
            final(self).last_click_view() == old(self).last_click_view(),
            ok ==> final(self).issues_view() == old(self).issues_view(),
            !ok ==> {
                let expected = ((click_y + viewport_y) as usize, (click_x + viewport_x) as usize);
                let issue = final(self).issues_view().last();
                &&& final(self).issues_view().len() == old(self).issues_view().len() + 1
                &&& final(self).issues_view().drop_last() == old(self).issues_view()
                &&& issue.issue_type == IssueType::CursorMismatch
                &&& issue.expected == expected
                &&& issue.actual == (cursor_row, cursor_col)
                &&& issue.context@ == click_context(
                    click_x,
                    click_y,
                    viewport_x,
                    viewport_y,
                    expected,
                    (cursor_row, cursor_col),
                )
            },
    {
        let expected_row = click_y as usize + viewport_y;
        let expected_col = click_x as usize + viewport_x;
        if cursor_row != expected_row || cursor_col != expected_col {
            let mut context = literal("Click");
            push_pair(&mut context, click_x as u64, click_y as u64);
            push_str(&mut context, " + Viewport");
            push_pair(&mut context, viewport_x as u64, viewport_y as u64);
            push_str(&mut context, " should put cursor at ");
            push_pair(&mut context, expected_row as u64, expected_col as u64);
            push_str(&mut context, ", but it's at ");
            push_pair(&mut context, cursor_row as u64, cursor_col as u64);
            assert(context@ =~= click_context(
                click_x,
                click_y,
                viewport_x,
                viewport_y,
                (expected_row, expected_col),
                (cursor_row, cursor_col),
            ));
            self.issues.push(
                CoordinateIssue {
                    issue_type: IssueType::CursorMismatch,
                    expected: (expected_row, expected_col),
                    actual: (cursor_row, cursor_col),
                    context,
                },
            );
            assert(self.issues@.drop_last() =~= old(self).issues@);
            false
        } else {
            true
        }
    }

    /// Checks that scrolling by `scroll_amount` moved the viewport from
    /// `old_viewport` to `new_viewport` (each coordinate taken as an `i32`,
    /// moved by the amount and kept at zero or above). On a mismatch a
    /// `ViewportDrift` issue is recorded and `false` returned.
    pub fn validate_viewport_consistency(
        &mut self,
        old_viewport: (usize, usize),
        new_viewport: (usize, usize),
        scroll_amount: (i32, i32),
    ) -> (ok: bool)
        requires
            i32::MIN <= (old_viewport.0 as i32) as int + scroll_amount.0 as int <= i32::MAX,
            i32::MIN <= (old_viewport.1 as i32) as int + scroll_amount.1 as int <= i32::MAX,
        ensures
            ok == (new_viewport.0 as int == scrolled(old_viewport.0, scroll_amount.0)
                && new_viewport.1 as int == scrolled(old_viewport.1, scroll_amount.1)),
            final(self).last_click_view() == old(self).last_click_view(),
            ok ==> final(self).issues_view() == old(self).issues_view(),
            !ok ==> {
                let expected = (
                    scrolled(old_viewport.0, scroll_amount.0) as usize,
                    scrolled(old_viewport.1, scroll_amount.1) as usize,
                );
                let issue = final(self).issues_view().last();
                &&& final(self).issues_view().len() == old(self).issues_view().len() + 1
                &&& final(self).issues_view().drop_last() == old(self).issues_view()
                &&& issue.issue_type == IssueType::ViewportDrift
                &&& issue.expected == expected
                &&& issue.actual == new_viewport
                &&& issue.context@ == drift_context(
                    scroll_amount,
                    old_viewport,
                    new_viewport,
                    expected,
                )
            },
    {
        let sum_x = old_viewport.0 as i32 + scroll_amount.0;
        let sum_y = old_viewport.1 as i32 + scroll_amount.1;
        let expected_x = if sum_x < 0 {
            0
        } else {
            sum_x as usize
        };
        let expected_y = if sum_y < 0 {
            0
        } else {
            sum_y as usize
        };
        if new_viewport.0 != expected_x || new_viewport.1 != expected_y {
            let mut context = literal("Viewport drift: scrolled ");
            context.push('(');
            push_signed(&mut context, scroll_amount.0 as i64);
            context.push(',');
            push_signed(&mut context, scroll_amount.1 as i64);
            context.push(')');
            push_str(&mut context, " from ");
            push_pair(&mut context, old_viewport.0 as u64, old_viewport.1 as u64);
            push_str(&mut context, " but got ");
            push_pair(&mut context, new_viewport.0 as u64, new_viewport.1 as u64);
            push_str(&mut context, " instead of ");
            push_pair(&mut context, expected_x as u64, expected_y as u64);
            assert(context@ =~= drift_context(
                scroll_amount,
                old_viewport,
                new_viewport,
                (expected_x, expected_y),
            ));
            self.issues.push(
                CoordinateIssue {
                    issue_type: IssueType::ViewportDrift,
                    expected: (expected_x, expected_y),
                    actual: new_viewport,
                    context,
                },
            );
            assert(self.issues@.drop_last() =~= old(self).issues@);
            false
        } else {
            true
        }
    }
}

} // verus!
