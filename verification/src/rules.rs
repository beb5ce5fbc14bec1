//! The default look of the cursor, the selection and the chooser, as style
//! rules.
//!
//! The rules for the cursor and the selection apply while the focus is in the
//! table and the chooser is closed. Apart from those for the table itself and
//! for the chip of an open chooser they have no specificity, so any rule of an
//! author's wins over them.

use rdom_tui::layout::BorderStyle;
use rdom_tui::{Border, Color, Display, Padding, Stylesheet, TuiStyle, UserSelect, Value};
use vstd::prelude::*;

use crate::dom::Rgb;
use crate::menu::menu_color;

verus! {

#[verifier::external_type_specification]
#[verifier::external_body]
pub struct ExStylesheet(Stylesheet);

/// The declarations of a rule.
#[derive(Clone, Copy, Debug, PartialEq, Eq, Structural)]
pub struct RuleStyle {
    pub bg: Option<Rgb>,
    pub fg: Option<Rgb>,
    pub border_fg: Option<Rgb>,
    /// Text cannot be selected.
    pub no_select: bool,
    /// The element is not shown.
    pub hidden: bool,
    /// The element has no padding, and half blocks as its left and right border.
    pub side_blocks: bool,
}

/// A rule: a selector and its declarations.
#[derive(Clone, Copy, Debug)]
pub struct HighlightRule {
    pub selector: &'static str,
    pub style: RuleStyle,
}

/// A rule as a mathematical value.
pub struct RuleView {
    pub selector: Seq<char>,
    pub style: RuleStyle,
}

/// The rules that were added to a sheet, in order, beyond those of the user
/// agent.
pub uninterp spec fn sheet_rules(sheet: Stylesheet) -> Seq<RuleView>;

/// Is a text a selector that can be parsed?
pub uninterp spec fn selector_parses(selector: Seq<char>) -> bool;

/// `Stylesheet::new`: a sheet with the rules of the user agent alone.
#[verifier::external_body]
fn new_sheet() -> (r: Stylesheet)
    ensures
        sheet_rules(r) == Seq::<RuleView>::empty(),
{
    Stylesheet::new()
}

/// Is a character a visible one of ASCII?
pub open spec fn is_visible(c: char) -> bool {
    0x21 <= c as u32 <= 0x7e
}

/// Is there no comma among the first `n` characters of a text?
pub open spec fn no_comma(s: Seq<char>, n: nat) -> bool
    decreases n,
{
    n == 0 || (s[n - 1] != ',' && no_comma(s, (n - 1) as nat))
}

/// Is a text one selector and not a list of them, without white space around it?
pub open spec fn stands_alone(s: Seq<char>) -> bool {
    s.len() > 0 && is_visible(s[0]) && is_visible(s[s.len() - 1]) && no_comma(s, s.len())
}

/// `Stylesheet::rule` of one selector, not a list of them: the sheet with a rule
/// added at its end, or `None` if the selector cannot be parsed.
#[verifier::external_body]
fn add_rule(sheet: Stylesheet, selector: &str, style: RuleStyle) -> (r: Option<Stylesheet>)
    requires
        stands_alone(selector@),
    ensures
        r is Some == selector_parses(selector@),
        r is Some ==> sheet_rules(r.unwrap()) == sheet_rules(sheet).push(
            (RuleView { selector: selector@, style }),
        ),
{
    let color = |c: Rgb| Value::Specified(Color::Rgb(c.red, c.green, c.blue).into());
    let half = BorderStyle::HalfBlock;
    let sides = Border { left: half, right: half, ..Border::none() };
    let s = TuiStyle {
        bg: style.bg.map(color),
        fg: style.fg.map(color),
        border_fg: style.border_fg.map(color),
        user_select: style.no_select.then_some(Value::Specified(UserSelect::None)),
        display: style.hidden.then_some(Value::Specified(Display::None)),
        padding: style.side_blocks.then_some(Value::Specified(Padding::all(0))),
        border: style.side_blocks.then_some(Value::Specified(sides)),
        ..TuiStyle::new()
    };
    sheet.rule(selector, s).ok()
}

/// The tint of the cursor's row and column.
pub open spec fn line_color() -> Rgb {
    Rgb { red: 0x18, green: 0x1a, blue: 0x1c }
}

/// Selected cells.
pub open spec fn selected_color() -> Rgb {
    Rgb { red: 0x1e, green: 0x3a, blue: 0x5f }
}

/// Selected cells in the cursor's row or column, and the highlighted item of the
/// chooser.
pub open spec fn selected_line_color() -> Rgb {
    Rgb { red: 0x2b, green: 0x55, blue: 0x7e }
}

/// The cursor's cell.
pub open spec fn cell_color() -> Rgb {
    Rgb { red: 0x2d, green: 0x2f, blue: 0x31 }
}

/// The cursor's cell when it is selected.
pub open spec fn selected_cell_color() -> Rgb {
    Rgb { red: 0x3a, green: 0x6e, blue: 0xa5 }
}

/// The scrollbar's thumb.
pub open spec fn accent_color() -> Rgb {
    Rgb { red: 0x1e, green: 0x90, blue: 0xff }
}

/// A rule without declarations.
pub open spec fn plain() -> RuleStyle {
    RuleStyle {
        bg: None,
        fg: None,
        border_fg: None,
        no_select: false,
        hidden: false,
        side_blocks: false,
    }
}

/// The default rules, in order of increasing precedence.
pub open spec fn default_rules() -> Seq<RuleView> {
    seq![
        RuleView {
            selector: "table"@,
            style: RuleStyle { no_select: true, ..plain() },
        },
        RuleView {
            selector: ":where(table:focus-within:not([data-vt-menu-open]) tr[data-active-row])"@,
            style: RuleStyle { bg: Some(line_color()), ..plain() },
        },
        RuleView {
            selector: ":where(table:focus-within:not([data-vt-menu-open]) th[data-active-col])"@,
            style: RuleStyle { bg: Some(line_color()), ..plain() },
        },
        RuleView {
            selector: ":where(table:focus-within:not([data-vt-menu-open]) td[data-active-col])"@,
            style: RuleStyle { bg: Some(line_color()), ..plain() },
        },
        RuleView {
            selector: ":where(table:focus-within:not([data-vt-menu-open]) td[data-selected])"@,
            style: RuleStyle { bg: Some(selected_color()), ..plain() },
        },
        RuleView {
            selector: ":where(table:focus-within:not([data-vt-menu-open]) td[data-selected][data-active-col])"@,
            style: RuleStyle { bg: Some(selected_line_color()), ..plain() },
        },
        RuleView {
            selector: ":where(table:focus-within:not([data-vt-menu-open]) tr[data-active-row] td[data-selected])"@,
            style: RuleStyle { bg: Some(selected_line_color()), ..plain() },
        },
        RuleView {
            selector: ":where(table:focus-within:not([data-vt-menu-open]) td[data-active-cell])"@,
            style: RuleStyle { bg: Some(cell_color()), ..plain() },
        },
        RuleView {
            selector: ":where(table:focus-within:not([data-vt-menu-open]) td[data-active-cell][data-selected])"@,
            style: RuleStyle { bg: Some(selected_cell_color()), ..plain() },
        },
        RuleView {
            selector: ":where(table:focus-within tbody)::scrollbar-thumb"@,
            style: RuleStyle { fg: Some(accent_color()), ..plain() },
        },
        RuleView {
            selector: ":where([data-vt-hidden])"@,
            style: RuleStyle { hidden: true, ..plain() },
        },
        RuleView {
            selector: "th[data-vt-overflow][data-vt-menu-open]"@,
            style: RuleStyle {
                bg: Some(menu_color()),
                border_fg: Some(menu_color()),
                side_blocks: true,
                ..plain()
            },
        },
        RuleView {
            selector: ":where([data-vt-menu-item][data-vt-menu-active])"@,
            style: RuleStyle { bg: Some(selected_line_color()), ..plain() },
        },
    ]
}

/// The mathematical values of some rules.
pub open spec fn rule_views(rules: Seq<HighlightRule>) -> Seq<RuleView> {
    Seq::new(
        rules.len(),
        |i: int| RuleView { selector: rules[i].selector@, style: rules[i].style },
    )
}

/// The default rules, in order of increasing precedence.
pub fn highlight_rules() -> (r: Vec<HighlightRule>)
    ensures
        rule_views(r@) == default_rules(),
{
    let plain = RuleStyle {
        bg: None,
        fg: None,
        border_fg: None,
        no_select: false,
        hidden: false,
        side_blocks: false,
    };
    let line = Some(Rgb { red: 0x18, green: 0x1a, blue: 0x1c });
    let selected = Some(Rgb { red: 0x1e, green: 0x3a, blue: 0x5f });
    let selected_line = Some(Rgb { red: 0x2b, green: 0x55, blue: 0x7e });
    let cell = Some(Rgb { red: 0x2d, green: 0x2f, blue: 0x31 });
    let selected_cell = Some(Rgb { red: 0x3a, green: 0x6e, blue: 0xa5 });
    let accent = Some(Rgb { red: 0x1e, green: 0x90, blue: 0xff });
    let menu = Some(Rgb { red: 0x22, green: 0x24, blue: 0x26 });
    let rules = vec![
        HighlightRule {
            selector: "table",
            style: RuleStyle { no_select: true, ..plain },
        },
        HighlightRule {
            selector: ":where(table:focus-within:not([data-vt-menu-open]) tr[data-active-row])",
            style: RuleStyle { bg: line, ..plain },
        },
        HighlightRule {
            selector: ":where(table:focus-within:not([data-vt-menu-open]) th[data-active-col])",
            style: RuleStyle { bg: line, ..plain },
        },
        HighlightRule {
            selector: ":where(table:focus-within:not([data-vt-menu-open]) td[data-active-col])",
            style: RuleStyle { bg: line, ..plain },
        },
        HighlightRule {
            selector: ":where(table:focus-within:not([data-vt-menu-open]) td[data-selected])",
            style: RuleStyle { bg: selected, ..plain },
        },
        HighlightRule {
            selector: ":where(table:focus-within:not([data-vt-menu-open]) td[data-selected][data-active-col])",
            style: RuleStyle { bg: selected_line, ..plain },
        },
        HighlightRule {
            selector: ":where(table:focus-within:not([data-vt-menu-open]) tr[data-active-row] td[data-selected])",
            style: RuleStyle { bg: selected_line, ..plain },
        },
        HighlightRule {
            selector: ":where(table:focus-within:not([data-vt-menu-open]) td[data-active-cell])",
            style: RuleStyle { bg: cell, ..plain },
        },
        HighlightRule {
            selector: ":where(table:focus-within:not([data-vt-menu-open]) td[data-active-cell][data-selected])",
            style: RuleStyle { bg: selected_cell, ..plain },
        },
        HighlightRule {
            selector: ":where(table:focus-within tbody)::scrollbar-thumb",
            style: RuleStyle { fg: accent, ..plain },
        },
        HighlightRule {
            selector: ":where([data-vt-hidden])",
            style: RuleStyle { hidden: true, ..plain },
        },
        HighlightRule {
            selector: "th[data-vt-overflow][data-vt-menu-open]",
            style: RuleStyle { bg: menu, border_fg: menu, side_blocks: true, ..plain },
        },
        HighlightRule {
            selector: ":where([data-vt-menu-item][data-vt-menu-active])",
            style: RuleStyle { bg: selected_line, ..plain },
        },
    ];
    assert(rule_views(rules@) =~= default_rules());
    rules
}

/// Can the selectors of the first `n` default rules be parsed?
pub open spec fn rules_parse(n: nat) -> bool {
    forall|i: int|
        0 <= i < n ==> selector_parses((#[trigger] default_rules()[i]).selector)
}

proof fn lemma_table_alone()
    ensures
        stands_alone("table"@),
{
    reveal_strlit("table");
    reveal_with_fuel(no_comma, 6);
}

proof fn lemma_active_row_alone()
    ensures
        stands_alone(":where(table:focus-within:not([data-vt-menu-open]) tr[data-active-row])"@),
{
    reveal_strlit(":where(table:focus-within:not([data-vt-menu-open]) tr[data-active-row])");
    reveal_with_fuel(no_comma, 72);
}

proof fn lemma_active_header_alone()
    ensures
        stands_alone(":where(table:focus-within:not([data-vt-menu-open]) th[data-active-col])"@),
{
    reveal_strlit(":where(table:focus-within:not([data-vt-menu-open]) th[data-active-col])");
    reveal_with_fuel(no_comma, 72);
}

proof fn lemma_active_col_alone()
    ensures
        stands_alone(":where(table:focus-within:not([data-vt-menu-open]) td[data-active-col])"@),
{
    reveal_strlit(":where(table:focus-within:not([data-vt-menu-open]) td[data-active-col])");
    reveal_with_fuel(no_comma, 72);
}

proof fn lemma_selected_alone()
    ensures
        stands_alone(":where(table:focus-within:not([data-vt-menu-open]) td[data-selected])"@),
{
    reveal_strlit(":where(table:focus-within:not([data-vt-menu-open]) td[data-selected])");
    reveal_with_fuel(no_comma, 70);
}

proof fn lemma_selected_col_alone()
    ensures
        stands_alone(":where(table:focus-within:not([data-vt-menu-open]) td[data-selected][data-active-col])"@),
{
    reveal_strlit(":where(table:focus-within:not([data-vt-menu-open]) td[data-selected][data-active-col])");
    reveal_with_fuel(no_comma, 87);
}

proof fn lemma_selected_row_alone()
    ensures
        stands_alone(":where(table:focus-within:not([data-vt-menu-open]) tr[data-active-row] td[data-selected])"@),
{
    reveal_strlit(":where(table:focus-within:not([data-vt-menu-open]) tr[data-active-row] td[data-selected])");
    reveal_with_fuel(no_comma, 90);
}

proof fn lemma_active_cell_alone()
    ensures
        stands_alone(":where(table:focus-within:not([data-vt-menu-open]) td[data-active-cell])"@),
{
    reveal_strlit(":where(table:focus-within:not([data-vt-menu-open]) td[data-active-cell])");
    reveal_with_fuel(no_comma, 73);
}

proof fn lemma_selected_cell_alone()
    ensures
        stands_alone(":where(table:focus-within:not([data-vt-menu-open]) td[data-active-cell][data-selected])"@),
{
    reveal_strlit(":where(table:focus-within:not([data-vt-menu-open]) td[data-active-cell][data-selected])");
    reveal_with_fuel(no_comma, 88);
}

proof fn lemma_thumb_alone()
    ensures
        stands_alone(":where(table:focus-within tbody)::scrollbar-thumb"@),
{
    reveal_strlit(":where(table:focus-within tbody)::scrollbar-thumb");
    reveal_with_fuel(no_comma, 50);
}

proof fn lemma_hidden_alone()
    ensures
        stands_alone(":where([data-vt-hidden])"@),
{
    reveal_strlit(":where([data-vt-hidden])");
    reveal_with_fuel(no_comma, 25);
}

proof fn lemma_open_chip_alone()
    ensures
        stands_alone("th[data-vt-overflow][data-vt-menu-open]"@),
{
    reveal_strlit("th[data-vt-overflow][data-vt-menu-open]");
    reveal_with_fuel(no_comma, 40);
}

proof fn lemma_menu_active_alone()
    ensures
        stands_alone(":where([data-vt-menu-item][data-vt-menu-active])"@),
{
    reveal_strlit(":where([data-vt-menu-item][data-vt-menu-active])");
    reveal_with_fuel(no_comma, 49);
}

/// The selectors of the default rules are each one selector.
proof fn lemma_selectors_stand_alone()
    ensures
        forall|i: int|
            0 <= i < default_rules().len() ==> stands_alone((#[trigger] default_rules()[i]).selector),
{
    lemma_table_alone();
    lemma_active_row_alone();
    lemma_active_header_alone();
    lemma_active_col_alone();
    lemma_selected_alone();
    lemma_selected_col_alone();
    lemma_selected_row_alone();
    lemma_active_cell_alone();
    lemma_selected_cell_alone();
    lemma_thumb_alone();
    lemma_hidden_alone();
    lemma_open_chip_alone();
    lemma_menu_active_alone();
}

/// A sheet with the rules of the user agent and the default rules, or `None` if
/// one of their selectors cannot be parsed.
pub fn highlight_stylesheet() -> (r: Option<Stylesheet>)
    ensures
        r is Some == rules_parse(default_rules().len()),
        r is Some ==> sheet_rules(r.unwrap()) == default_rules(),
{
    let rules = highlight_rules();
    let mut sheet = new_sheet();
    let mut i: usize = 0;
    proof {
        lemma_selectors_stand_alone();
    }
    assert(default_rules().take(0) =~= Seq::empty());
    while i < rules.len()
        invariant
            i <= rules@.len(),
            rule_views(rules@) == default_rules(),
            forall|k: int|
                0 <= k < default_rules().len() ==> stands_alone(
                    (#[trigger] default_rules()[k]).selector,
                ),
            rules_parse(i as nat),
            sheet_rules(sheet) == default_rules().take(i as int),
        decreases rules@.len() - i,
    {
        assert(default_rules()[i as int] == rule_views(rules@)[i as int]);
        match add_rule(sheet, rules[i].selector, rules[i].style) {
            Some(more) => {
                sheet = more;
            },
            None => {
                assert(!selector_parses(default_rules()[i as int].selector));
                return None;
            },
        }
        i = i + 1;
        assert(default_rules().take(i as int) =~= default_rules().take(i - 1).push(
            default_rules()[i - 1],
        ));
    }
    assert(default_rules().take(rules@.len() as int) =~= default_rules());
    Some(sheet)
}

} // verus!
