//! The line at the bottom: what the keys do, and the line that is being edited.
use vstd::prelude::*;

use crate::app::{App, AppModel, Mode, ModeModel};
use crate::keys::{line_cursor, line_scroll, line_text, LineShown};
use crate::text::{chars_of, concat3, text_between};
use crate::ui::theme::{
    colored, hint, key_hint, raw, styled, Color, Line, Span, SpanModel, Style, DIM,
};

verus! {

/// What stands before the line that is being edited.
pub const PROMPT: &'static str = " add: ";

/// What the line at the bottom shows.
#[derive(Debug)]
pub enum Footer {
    /// What the keys do.
    Hints(Line),
    /// The line that is being edited, and the column of its cursor behind the
    /// prompt.
    Editing { line: Line, cursor: usize },
    /// A question, in yellow.
    Question(String),
}

/// The value of a [`Footer`].
pub enum FooterModel {
    Hints(Seq<SpanModel>),
    Editing { line: Seq<SpanModel>, cursor: int },
    Question(Seq<char>),
}

impl DeepView for Footer {
    type V = FooterModel;

    open spec fn deep_view(&self) -> FooterModel {
        match self {
            Footer::Hints(l) => FooterModel::Hints(l.deep_view()),
            Footer::Editing { line, cursor } => FooterModel::Editing {
                line: line.deep_view(),
                cursor: *cursor as int,
            },
            Footer::Question(t) => FooterModel::Question(t@),
        }
    }
}

/// The hints in one line, with dots between them.
pub open spec fn hints_line(hints: Seq<Seq<SpanModel>>) -> Seq<SpanModel>
    decreases hints.len(),
{
    if hints.len() == 0 {
        seq![raw(" "@)]
    } else if hints.len() == 1 {
        seq![raw(" "@)] + hints[0]
    } else {
        hints_line(hints.drop_last()).push(styled(" \u{b7} "@, colored(DIM))) + hints.last()
    }
}

/// What the keys do in normal mode.
pub open spec fn normal_hints(home_set: bool) -> Seq<Seq<SpanModel>> {
    let hints = seq![
        hint("a"@, "add"@),
        hint("d"@, "remove"@),
        hint("r"@, "refresh"@),
        hint("R"@, "refresh all"@),
        hint("Enter"@, "detail"@),
        hint("j/k"@, "move"@),
        hint("q"@, "quit"@),
    ];
    if home_set {
        hints
    } else {
        hints.push(seq![styled("--home to set your address"@, colored(DIM))])
    }
}

/// What the keys do while a parcel is shown in full.
pub open spec fn detail_hints() -> Seq<Seq<SpanModel>> {
    seq![hint("j/k"@, "scroll"@), hint("r"@, "refresh"@), hint("q/Esc"@, "back"@)]
}

/// The columns that a line of `width` columns leaves to the text behind the
/// prompt and to the cursor.
pub open spec fn editing_room(width: int) -> int {
    if width > 7 {
        width - 7
    } else {
        0
    }
}

/// The line that is being edited, from the character `scroll` on.
pub open spec fn editing(text: Seq<char>, cursor: int, scroll: int) -> FooterModel {
    FooterModel::Editing {
        line: seq![
            styled(PROMPT@, colored(Color::Yellow)),
            raw(
                if scroll <= text.len() {
                    text.skip(scroll)
                } else {
                    Seq::empty()
                },
            ),
        ],
        cursor: if cursor > scroll {
            cursor - scroll
        } else {
            0
        },
    }
}

/// What the line at the bottom shows in `width` columns.
pub open spec fn footer(app: AppModel, width: int) -> FooterModel {
    match app.mode {
        ModeModel::Normal => FooterModel::Hints(
            hints_line(normal_hints(app.parcels.home is Some)),
        ),
        ModeModel::Adding(keys) => editing(
            line_text(keys),
            line_cursor(keys) as int,
            line_scroll(keys, editing_room(width) as usize) as int,
        ),
        ModeModel::ConfirmRemove => FooterModel::Question(
            " remove "@ + match app.selected_number() {
                Some(n) => n,
                None => ""@,
            } + "? (y/n) "@,
        ),
        ModeModel::Detail { .. } => FooterModel::Hints(hints_line(detail_hints())),
    }
}

/// The hints in one line, with dots between them.
pub fn hint_line(hints: Vec<Vec<Span>>) -> (r: Line)
    ensures
        r.deep_view() == hints_line(hints.deep_view()),
{
    let ghost all = hints.deep_view();
    let mut spans: Vec<Span> = Vec::new();
    spans.push(Span::raw(" ".to_owned()));
    let mut i: usize = 0;
    assert(spans.deep_view() =~= hints_line(all.take(0)));
    while i < hints.len()
        invariant
            i <= hints.len(),
            all == hints.deep_view(),
            spans.deep_view() == hints_line(all.take(i as int)),
        decreases hints.len() - i,
    {
        let ghost before = spans.deep_view();
        proof {
            assert(all.take(i + 1).drop_last() =~= all.take(i as int));
            assert(all.take(i + 1).last() == hints[i as int].deep_view());
        }
        if i > 0 {
            spans.push(Span::styled(" \u{b7} ".to_owned(), Style::fg(DIM)));
            assert(spans.deep_view() =~= before.push(styled(" \u{b7} "@, colored(DIM))));
        }
        let ghost led = spans.deep_view();
        let group = &hints[i];
        let mut j: usize = 0;
        assert(led + group.deep_view().take(0) =~= led);
        while j < group.len()
            invariant
                j <= group.len(),
                spans.deep_view() == led + group.deep_view().take(j as int),
            decreases group.len() - j,
        {
            let ghost was = spans.deep_view();
            let span = Span::styled(group[j].content.clone(), group[j].style);
            let ghost sm = span.deep_view();
            spans.push(span);
            proof {
                assert(sm == group.deep_view()[j as int]);
                assert(spans.deep_view() =~= was.push(sm));
                assert(group.deep_view().take(j + 1) =~= group.deep_view().take(j as int).push(sm));
                assert(led + group.deep_view().take(j + 1) =~= was.push(sm));
            }
            j += 1;
        }
        proof {
            assert(group.deep_view().take(j as int) =~= group.deep_view());
            assert(all.take(i + 1)[0] == all[0]);
            if i == 0 {
                assert(all.take(0) =~= Seq::empty());
            }
        }
        i += 1;
    }
    assert(all.take(i as int) =~= all);
    Line { spans }
}

/// The line that is being edited, as it is shown.
pub fn editing_line(shown: &LineShown) -> (r: Footer)
    ensures
        r.deep_view() == editing(shown.text@, shown.cursor as int, shown.scroll as int),
{
    let chars = chars_of(&shown.text);
    let rest = if shown.scroll <= chars.len() {
        text_between(&chars, shown.scroll, chars.len())
    } else {
        String::new()
    };
    proof {
        if shown.scroll <= chars.len() {
            assert(rest@ =~= shown.text@.skip(shown.scroll as int));
        } else {
            assert(rest@ =~= Seq::empty());
        }
    }
    let mut spans: Vec<Span> = Vec::new();
    spans.push(Span::styled(PROMPT.to_owned(), Style::fg(Color::Yellow)));
    spans.push(Span::raw(rest));
    let cursor: usize = if shown.cursor > shown.scroll {
        shown.cursor - shown.scroll
    } else {
        0
    };
    let line = Line { spans };
    proof {
        let m = editing(shown.text@, shown.cursor as int, shown.scroll as int);
        assert(line.deep_view() =~= m->line);
    }
    Footer::Editing { line, cursor }
}

/// What the line at the bottom shows in `width` columns.
pub fn footer_line(app: &App, width: u16) -> (r: Footer)
    ensures
        r.deep_view() == footer(app.deep_view(), width as int),
{
    match &app.mode {
        Mode::Normal => {
            let mut hints: Vec<Vec<Span>> = Vec::new();
            hints.push(key_hint("a", "add"));
            hints.push(key_hint("d", "remove"));
            hints.push(key_hint("r", "refresh"));
            hints.push(key_hint("R", "refresh all"));
            hints.push(key_hint("Enter", "detail"));
            hints.push(key_hint("j/k", "move"));
            hints.push(key_hint("q", "quit"));
            if app.parcels.home.is_none() {
                let mut home: Vec<Span> = Vec::new();
                home.push(
                    Span::styled("--home to set your address".to_owned(), Style::fg(DIM)),
                );
                assert(home.deep_view() =~= seq![
                    styled("--home to set your address"@, colored(DIM)),
                ]);
                hints.push(home);
            }
            assert(hints.deep_view() =~= normal_hints(app.parcels.home is Some));
            Footer::Hints(hint_line(hints))
        },
        Mode::Adding(input) => {
            let room: usize = if width > 7 {
                (width - 7) as usize
            } else {
                0
            };
            editing_line(&input.shown(room))
        },
        Mode::ConfirmRemove => {
            let number = match app.selected_parcel() {
                Some(p) => {
                    assert(app.deep_view().parcels.parcels[app.selected as int] == p.deep_view());
                    p.number.as_str()
                },
                None => "",
            };
            Footer::Question(concat3(" remove ", number, "? (y/n) "))
        },
        Mode::Detail { .. } => {
            let mut hints: Vec<Vec<Span>> = Vec::new();
            hints.push(key_hint("j/k", "scroll"));
            hints.push(key_hint("r", "refresh"));
            hints.push(key_hint("q/Esc", "back"));
            assert(hints.deep_view() =~= detail_hints());
            Footer::Hints(hint_line(hints))
        },
    }
}

} // verus!
