//! What the window's panels show.

use crate::chat::{ChatApp, ChatView, MsgView, Who};
use crate::colour::{from_rgb, gray, gray_colour, opaque, Rgba};
use crate::command::{lemma_command_names, COMMANDS};
use crate::label::{short, short_name, truncate, truncated};
use crate::session::{sessions_view, AgentSession, ItemView, SessionView};
use crate::text::{begins_with, same, skip_chars, starts_with};
use vstd::prelude::*;

verus! {

// ---------------------------------------------------------------------------
// Status bar
// ---------------------------------------------------------------------------

/// One agent in the status bar.
#[derive(Debug)]
pub struct Chip {
    pub name: String,
    pub color: Rgba,
    pub status: String,
    pub busy: bool,
}

/// A [`Chip`] as a mathematical value.
#[verifier::ext_equal]
pub struct ChipView {
    pub name: Seq<char>,
    pub color: Rgba,
    pub status: Seq<char>,
    pub busy: bool,
}

impl View for Chip {
    type V = ChipView;

    open spec fn view(&self) -> ChipView {
        ChipView { name: self.name@, color: self.color, status: self.status@, busy: self.busy }
    }
}

/// The chip of an agent.
pub open spec fn chip(s: SessionView) -> ChipView {
    ChipView { name: short_name(s.id), color: s.color, status: s.status, busy: s.busy }
}

/// The amber of warnings.
pub open spec fn amber() -> Rgba {
    opaque((0xE0, 0xA0, 0x30))
}

// ---------------------------------------------------------------------------
// Activity panel
// ---------------------------------------------------------------------------

/// A row of the activity panel.
#[derive(Debug)]
pub enum ActivityRow {
    /// The agent whose rows follow.
    Heading { name: String, color: Rgba },
    /// A row without anything to expand.
    Flat { text: String },
    /// A row that expands to `body`. `salt` tells rows with equal summaries apart.
    Fold { salt: u128, summary: String, body: String },
    /// Space after the rows of an agent.
    Gap,
    /// A remark instead of rows.
    Note { text: String },
}

/// An [`ActivityRow`] as a mathematical value.
pub enum ActivityRowView {
    Heading { name: Seq<char>, color: Rgba },
    Flat { text: Seq<char> },
    Fold { salt: int, summary: Seq<char>, body: Seq<char> },
    Gap,
    Note { text: Seq<char> },
}

impl View for ActivityRow {
    type V = ActivityRowView;

    open spec fn view(&self) -> ActivityRowView {
        match *self {
            ActivityRow::Heading { name, color } => ActivityRowView::Heading { name: name@, color },
            ActivityRow::Flat { text } => ActivityRowView::Flat { text: text@ },
            ActivityRow::Fold { salt, summary, body } => ActivityRowView::Fold {
                salt: salt as int,
                summary: summary@,
                body: body@,
            },
            ActivityRow::Gap => ActivityRowView::Gap,
            ActivityRow::Note { text } => ActivityRowView::Note { text: text@ },
        }
    }
}

/// The views of a list of activity rows.
pub open spec fn activity_rows_view(v: Seq<ActivityRow>) -> Seq<ActivityRowView> {
    v.map_values(|r: ActivityRow| r@)
}

proof fn lemma_activity_rows_push(v: Seq<ActivityRow>, r: ActivityRow)
    ensures
        activity_rows_view(v.push(r)) == activity_rows_view(v).push(r@),
{
    assert(activity_rows_view(v.push(r)) =~= activity_rows_view(v).push(r@));
}

/// The row of an item that is number `salt` in the panel.
pub open spec fn item_row(salt: int, it: ItemView) -> ActivityRowView {
    if it.body.len() == 0 {
        ActivityRowView::Flat { text: it.summary }
    } else {
        ActivityRowView::Fold { salt, summary: it.summary, body: it.body }
    }
}

/// The rows of `items`, of which the first is number `first` in the panel.
pub open spec fn item_rows(first: int, items: Seq<ItemView>) -> Seq<ActivityRowView> {
    Seq::new(items.len(), |k: int| item_row(first + k, items[k]))
}

/// How many items the first `n` agents have.
pub open spec fn item_count(sessions: Seq<SessionView>, n: int) -> int
    decreases n,
{
    if n <= 0 {
        0
    } else {
        item_count(sessions, n - 1) + sessions[n - 1].activity.len()
    }
}

/// The rows of an agent, of which the first item is number `first` in the panel: in a team between
/// a heading and a gap.
pub open spec fn session_rows(s: SessionView, team: bool, first: int) -> Seq<ActivityRowView> {
    let rows = item_rows(first, s.activity);
    if s.activity.len() == 0 {
        Seq::empty()
    } else if team {
        seq![ActivityRowView::Heading { name: short_name(s.id), color: s.color }] + rows
            + seq![ActivityRowView::Gap]
    } else {
        rows
    }
}

/// The rows of the first `n` agents.
pub open spec fn rows_of(sessions: Seq<SessionView>, team: bool, n: int) -> Seq<ActivityRowView>
    decreases n,
{
    if n <= 0 {
        Seq::empty()
    } else {
        rows_of(sessions, team, n - 1) + session_rows(
            sessions[n - 1],
            team,
            item_count(sessions, n - 1) + 1,
        )
    }
}

// ---------------------------------------------------------------------------
// Permission rows
// ---------------------------------------------------------------------------

/// A request that waits for a decision.
#[derive(Debug)]
pub struct PermissionRow {
    /// Position of the agent.
    pub session: usize,
    pub label: String,
    pub color: Rgba,
    pub detail: String,
}

/// A [`PermissionRow`] as a mathematical value.
#[verifier::ext_equal]
pub struct PermissionRowView {
    pub session: int,
    pub label: Seq<char>,
    pub color: Rgba,
    pub detail: Seq<char>,
}

impl View for PermissionRow {
    type V = PermissionRowView;

    open spec fn view(&self) -> PermissionRowView {
        PermissionRowView {
            session: self.session as int,
            label: self.label@,
            color: self.color,
            detail: self.detail@,
        }
    }
}

/// The views of a list of permission rows.
pub open spec fn permission_rows_view(v: Seq<PermissionRow>) -> Seq<PermissionRowView> {
    v.map_values(|r: PermissionRow| r@)
}

proof fn lemma_permission_rows_push(v: Seq<PermissionRow>, r: PermissionRow)
    ensures
        permission_rows_view(v.push(r)) == permission_rows_view(v).push(r@),
{
    assert(permission_rows_view(v.push(r)) =~= permission_rows_view(v).push(r@));
}

/// The row of the request of the session `s` at `i`.
pub open spec fn permission_row(s: SessionView, i: int, team: bool) -> PermissionRowView {
    let p = s.pending->0;
    PermissionRowView {
        session: i,
        label: (if team {
            "permission ["@ + short_name(s.id) + "]: "@
        } else {
            "permission: "@
        }) + p.tool + " "@,
        color: amber(),
        detail: truncated(p.detail, 120),
    }
}

/// The rows of the requests of the first `n` agents.
pub open spec fn permissions_of(sessions: Seq<SessionView>, team: bool, n: int) -> Seq<
    PermissionRowView,
>
    decreases n,
{
    if n <= 0 {
        Seq::empty()
    } else {
        let before = permissions_of(sessions, team, n - 1);
        if sessions[n - 1].pending is Some {
            before.push(permission_row(sessions[n - 1], n - 1, team))
        } else {
            before
        }
    }
}

// ---------------------------------------------------------------------------
// Command list
// ---------------------------------------------------------------------------

/// The positions of those of the first `n` commands that start with `typed`, which has no slash.
pub open spec fn commands_from(typed: Seq<char>, n: int) -> Seq<int>
    decreases n,
{
    if n <= 0 {
        Seq::empty()
    } else {
        let before = commands_from(typed, n - 1);
        if typed.is_prefix_of(COMMANDS[n - 1].0@.skip(1)) {
            before.push(n - 1)
        } else {
            before
        }
    }
}

/// The text of the row for the command at `i`.
pub fn command_label(i: usize) -> (out: String)
    requires
        i < COMMANDS.len(),
    ensures
        out@ == COMMANDS[i as int].0@ + "  —  "@ + COMMANDS[i as int].1@,
{
    let mut out = COMMANDS[i].0.to_owned();
    out.append("  —  ");
    out.append(COMMANDS[i].1);
    out
}

// ---------------------------------------------------------------------------
// Transcript
// ---------------------------------------------------------------------------

/// How a line of the transcript is shown.
#[derive(Debug)]
pub struct LineStyle {
    /// Who speaks.
    pub tag: String,
    pub color: Rgba,
    /// Whether the text is rendered as Markdown, below a line of its own for the tag.
    pub markdown: bool,
}

/// A [`LineStyle`] as a mathematical value.
#[verifier::ext_equal]
pub struct LineStyleView {
    pub tag: Seq<char>,
    pub color: Rgba,
    pub markdown: bool,
}

impl View for LineStyle {
    type V = LineStyleView;

    open spec fn view(&self) -> LineStyleView {
        LineStyleView { tag: self.tag@, color: self.color, markdown: self.markdown }
    }
}

/// A run of text in one colour.
#[derive(Debug)]
pub struct Section {
    pub text: String,
    pub color: Rgba,
}

/// The line above a Markdown reply of `tag`.
pub fn reply_heading(tag: &str) -> (out: String)
    ensures
        out@ == tag@ + ":"@,
{
    let mut out = tag.to_owned();
    out.append(":");
    out
}

/// The two runs of a user or system line: a coloured tag with a colon and a space, then the text.
pub fn message_sections(tag: &str, text: &str, tag_color: Rgba, text_color: Rgba) -> (out: (
    Section,
    Section,
))
    ensures
        out.0.text@ == tag@ + ": "@,
        out.0.color == tag_color,
        out.1.text@ == text@,
        out.1.color == text_color,
{
    let mut prefix = tag.to_owned();
    prefix.append(": ");
    (
        Section { text: prefix, color: tag_color },
        Section { text: text.to_owned(), color: text_color },
    )
}

impl ChatView {
    /// The text and colour of the permission-mode badge: amber when relaxed past the safe default.
    pub open spec fn badge(self) -> (Seq<char>, Rgba) {
        (
            "["@ + self.mode + "]"@,
            if self.mode == "default"@ {
                gray_colour()
            } else {
                amber()
            },
        )
    }

    /// The chips of the status bar.
    pub open spec fn chips(self) -> Seq<ChipView> {
        self.sessions.map_values(|s: SessionView| chip(s))
    }

    /// The rows of the activity panel.
    pub open spec fn activity_rows(self) -> Seq<ActivityRowView> {
        let rows = rows_of(self.sessions, self.team(), self.sessions.len() as int);
        if rows.len() == 0 {
            seq![ActivityRowView::Note { text: "(no tool activity yet)"@ }]
        } else {
            rows
        }
    }

    /// The rows of pending requests.
    pub open spec fn permission_rows(self) -> Seq<PermissionRowView> {
        permissions_of(self.sessions, self.team(), self.sessions.len() as int)
    }

    /// The positions of the commands that the window lists for the input line.
    pub open spec fn command_matches(self) -> Seq<int> {
        commands_from(self.input.skip(1), COMMANDS.len() as int)
    }

    /// What an empty input line shows.
    pub open spec fn hint(self) -> Seq<char> {
        if !self.any_alive() {
            "(all sessions ended)"@
        } else if self.team() {
            "message all…  (@name to target · /help)"@
        } else {
            "message…  (/help for commands)"@
        }
    }

    /// How a line of the transcript is shown.
    pub open spec fn line_style(self, m: MsgView) -> LineStyleView {
        match m.who {
            Who::User => LineStyleView {
                tag: "you"@,
                color: opaque((0x6C, 0xB6, 0xFF)),
                markdown: false,
            },
            Who::Agent => LineStyleView {
                tag: short_name(self.sessions[m.agent].id),
                color: self.sessions[m.agent].color,
                markdown: true,
            },
            Who::System => LineStyleView { tag: "·"@, color: gray_colour(), markdown: false },
        }
    }
}

impl ChatApp {
    /// The text and colour of the permission-mode badge.
    pub fn mode_badge(&self) -> (out: (String, Rgba))
        ensures
            (out.0@, out.1) == self@.badge(),
    {
        let mut text = "[".to_owned();
        text.append(self.mode.as_str());
        text.append("]");
        if same(self.mode.as_str(), "default") {
            (text, gray())
        } else {
            (text, from_rgb(0xE0, 0xA0, 0x30))
        }
    }

    /// The status bar: one chip per agent.
    pub fn status_chips(&self) -> (chips: Vec<Chip>)
        ensures
            chips@.map_values(|c: Chip| c@) == self@.chips(),
    {
        let mut chips: Vec<Chip> = Vec::new();
        let mut i: usize = 0;
        while i < self.sessions.len()
            invariant
                i <= self.sessions@.len(),
                chips@.len() == i,
                forall|j: int| 0 <= j < i ==> (#[trigger] chips@[j])@ == chip(self@.sessions[j]),
            decreases self.sessions.len() - i,
        {
            let s = &self.sessions[i];
            chips.push(
                Chip {
                    name: short(s.id.as_str()).to_owned(),
                    color: s.color,
                    status: s.status.clone(),
                    busy: s.busy,
                },
            );
            i += 1;
        }
        assert(chips@.map_values(|c: Chip| c@) =~= self@.chips());
        chips
    }

    /// The activity panel: tool calls, results and decisions, grouped by agent.
    pub fn activity_panel(&self) -> (rows: Vec<ActivityRow>)
        ensures
            activity_rows_view(rows@) == self@.activity_rows(),
    {
        let team = self.team();
        let ghost sessions = self@.sessions;
        let mut rows: Vec<ActivityRow> = Vec::new();
        let mut row: u128 = 0;
        let mut i: usize = 0;
        proof {
            lemma_item_count_fits(self.sessions@, self.sessions.len() as int);
        }
        assert(activity_rows_view(rows@) =~= Seq::<ActivityRowView>::empty());
        while i < self.sessions.len()
            invariant
                i <= self.sessions@.len() == sessions.len(),
                sessions == self@.sessions,
                team == self@.team(),
                row == item_count(sessions, i as int),
                item_count(sessions, sessions.len() as int) <= u128::MAX,
                activity_rows_view(rows@) == rows_of(sessions, team, i as int),
            decreases self.sessions.len() - i,
        {
            let s = &self.sessions[i];
            let ghost sv = sessions[i as int];
            let ghost before = activity_rows_view(rows@);
            let ghost first = item_count(sessions, i as int) + 1;
            assert(sv == s@);
            proof {
                lemma_item_count_up(sessions, i + 1, sessions.len() as int);
                assert(before + Seq::<ActivityRowView>::empty() =~= before);
            }
            if s.activity.len() > 0 {
                let ghost mut head = Seq::<ActivityRowView>::empty();
                if team {
                    let heading = ActivityRow::Heading {
                        name: short(s.id.as_str()).to_owned(),
                        color: s.color,
                    };
                    proof {
                        lemma_activity_rows_push(rows@, heading);
                        head = seq![heading@];
                    }
                    rows.push(heading);
                }
                assert(activity_rows_view(rows@) =~= before + head);
                assert(item_rows(first, sv.activity).take(0) =~= Seq::<ActivityRowView>::empty());
                assert(before + head + Seq::<ActivityRowView>::empty() =~= before + head);
                let mut k: usize = 0;
                while k < s.activity.len()
                    invariant
                        k <= s.activity@.len() == sv.activity.len(),
                        sv == s@,
                        row == first - 1 + k,
                        first - 1 + s.activity@.len() <= u128::MAX,
                        activity_rows_view(rows@) == before + head + item_rows(
                            first,
                            sv.activity,
                        ).take(k as int),
                    decreases s.activity.len() - k,
                {
                    let it = &s.activity[k];
                    assert(sv.activity[k as int] == it@);
                    row += 1;
                    let next = if it.body.as_str().is_empty() {
                        ActivityRow::Flat { text: it.summary.clone() }
                    } else {
                        ActivityRow::Fold {
                            salt: row,
                            summary: it.summary.clone(),
                            body: it.body.clone(),
                        }
                    };
                    proof {
                        lemma_activity_rows_push(rows@, next);
                        let all = item_rows(first, sv.activity);
                        assert(next@ == all[k as int]);
                        assert((before + head + all.take(k as int)).push(next@) =~= before + head
                            + all.take(k + 1));
                    }
                    rows.push(next);
                    k += 1;
                }
                let ghost all = item_rows(first, sv.activity);
                assert(all.take(k as int) =~= all);
                if team {
                    proof {
                        lemma_activity_rows_push(rows@, ActivityRow::Gap);
                        assert((before + head + all).push(ActivityRowView::Gap) =~= before + (head
                            + all + seq![ActivityRowView::Gap]));
                    }
                    rows.push(ActivityRow::Gap);
                } else {
                    assert(before + head + all =~= before + all);
                }
            }
            i += 1;
        }
        if rows.len() == 0 {
            rows.push(ActivityRow::Note { text: "(no tool activity yet)".to_owned() });
            assert(activity_rows_view(rows@) =~= self@.activity_rows());
        }
        rows
    }

    /// The requests that wait for a decision.
    pub fn permission_rows(&self) -> (rows: Vec<PermissionRow>)
        ensures
            permission_rows_view(rows@) == self@.permission_rows(),
    {
        let team = self.team();
        let mut rows: Vec<PermissionRow> = Vec::new();
        let mut i: usize = 0;
        assert(permission_rows_view(rows@) =~= Seq::<PermissionRowView>::empty());
        while i < self.sessions.len()
            invariant
                i <= self.sessions@.len(),
                team == self@.team(),
                permission_rows_view(rows@) == permissions_of(self@.sessions, team, i as int),
            decreases self.sessions.len() - i,
        {
            let s = &self.sessions[i];
            assert(self@.sessions[i as int] == s@);
            if let Some(p) = &s.pending {
                let mut label = if team {
                    let mut l = "permission [".to_owned();
                    l.append(short(s.id.as_str()));
                    l.append("]: ");
                    l
                } else {
                    "permission: ".to_owned()
                };
                label.append(p.tool.as_str());
                label.append(" ");
                let next = PermissionRow {
                    session: i,
                    label,
                    color: from_rgb(0xE0, 0xA0, 0x30),
                    detail: truncate(p.detail.as_str(), 120),
                };
                proof {
                    lemma_permission_rows_push(rows@, next);
                    assert(next@ =~= permission_row(s@, i as int, team));
                }
                rows.push(next);
            }
            i += 1;
        }
        rows
    }

    /// The positions in [`COMMANDS`] of the commands to list, when the input starts with `/`.
    pub fn command_matches(&self) -> (list: Option<Vec<usize>>)
        ensures
            list is Some <==> self@.input.len() > 0 && self@.input[0] == '/',
            list is Some ==> list->0@.map_values(|i: usize| i as int) == self@.command_matches(),
            list is Some ==> forall|k: int|
                0 <= k < list->0@.len() ==> #[trigger] list->0@[k] < COMMANDS.len(),
    {
        if !begins_with(self.input.as_str(), '/') {
            return None;
        }
        let typed = skip_chars(self.input.as_str(), 1);
        let mut list: Vec<usize> = Vec::new();
        let mut i: usize = 0;
        assert(list@.map_values(|i: usize| i as int) =~= Seq::<int>::empty());
        while i < 6
            invariant
                i <= 6,
                typed@ == self@.input.skip(1),
                list@.map_values(|i: usize| i as int) == commands_from(typed@, i as int),
                forall|k: int| 0 <= k < list@.len() ==> #[trigger] list@[k] < 6,
            decreases 6 - i,
        {
            proof {
                lemma_command_names(i as int);
            }
            let name = skip_chars(COMMANDS[i].0, 1);
            if starts_with(name.as_str(), typed.as_str()) {
                let ghost sofar = list@;
                list.push(i);
                assert(list@.map_values(|i: usize| i as int) =~= sofar.map_values(
                    |i: usize| i as int,
                ).push(i as int));
            }
            i += 1;
        }
        Some(list)
    }

    /// What an empty input line shows.
    pub fn input_hint(&self) -> (text: &'static str)
        ensures
            text@ == self@.hint(),
    {
        if !self.any_alive() {
            "(all sessions ended)"
        } else if self.team() {
            "message all…  (@name to target · /help)"
        } else {
            "message…  (/help for commands)"
        }
    }

    /// How the line at `i` of the transcript is shown.
    pub fn line_style(&self, i: usize) -> (style: LineStyle)
        requires
            self.wf(),
            i < self.convo.len(),
        ensures
            style@ == self@.line_style(self@.convo[i as int]),
    {
        let m = &self.convo[i];
        assert(self@.convo[i as int] == m@);
        match m.who {
            Who::User => LineStyle {
                tag: "you".to_owned(),
                color: from_rgb(0x6C, 0xB6, 0xFF),
                markdown: false,
            },
            Who::Agent => {
                let s = &self.sessions[m.agent];
                assert(self@.sessions[m.agent as int] == s@);
                LineStyle {
                    tag: short(s.id.as_str()).to_owned(),
                    color: s.color,
                    markdown: true,
                }
            },
            Who::System => LineStyle { tag: "·".to_owned(), color: gray(), markdown: false },
        }
    }
}

proof fn lemma_item_count_up(sessions: Seq<SessionView>, m: int, n: int)
    requires
        0 <= m <= n <= sessions.len(),
    ensures
        item_count(sessions, m) <= item_count(sessions, n),
    decreases n - m,
{
    if m < n {
        lemma_item_count_up(sessions, m, n - 1);
    }
}

proof fn lemma_item_count_fits(sessions: Seq<AgentSession>, n: int)
    requires
        0 <= n <= sessions.len() <= usize::MAX,
    ensures
        item_count(sessions_view(sessions), n) <= n * usize::MAX <= u128::MAX,
    decreases n,
{
    if n > 0 {
        lemma_item_count_fits(sessions, n - 1);
        assert(sessions_view(sessions)[n - 1] == sessions[n - 1]@);
        assert(sessions[n - 1].activity.len() <= usize::MAX);
        assert((n - 1) * usize::MAX + usize::MAX == n * usize::MAX) by (nonlinear_arith);
    }
    assert(n * usize::MAX <= u128::MAX) by (nonlinear_arith)
        requires
            0 <= n <= usize::MAX,
            usize::MAX <= 0xffff_ffff_ffff_ffff,
    ;
}

// ---------------------------------------------------------------------------
// Laws
// ---------------------------------------------------------------------------

/// The rows of the activity panel that can be expanded all differ in their salt: salts go up.
pub open spec fn salts_go_up(rows: Seq<ActivityRowView>, below: int, above: int) -> bool {
    &&& forall|k: int|
        0 <= k < rows.len() && (#[trigger] rows[k]) is Fold ==> below < rows[k]->salt <= above
    &&& forall|k: int, l: int|
        0 <= k < l < rows.len() && (#[trigger] rows[k]) is Fold && (#[trigger] rows[l]) is Fold
            ==> rows[k]->salt < rows[l]->salt
}

proof fn lemma_salts(sessions: Seq<SessionView>, team: bool, n: int)
    requires
        0 <= n <= sessions.len(),
    ensures
        salts_go_up(rows_of(sessions, team, n), 0, item_count(sessions, n)),
    decreases n,
{
    if n > 0 {
        lemma_salts(sessions, team, n - 1);
        lemma_item_count_up(sessions, 0, n - 1);
        let before = rows_of(sessions, team, n - 1);
        let s = sessions[n - 1];
        let first = item_count(sessions, n - 1) + 1;
        let more = session_rows(s, team, first);
        let head = if team {
            1int
        } else {
            0
        };
        assert forall|k: int| 0 <= k < more.len() && (#[trigger] more[k]) is Fold implies 0 <= k
            - head < s.activity.len() && more[k]->salt == first + k - head by {
            if team && k > 0 && k <= s.activity.len() {
                assert(more[k] == item_rows(first, s.activity)[k - 1]);
            }
        }
        let rows = rows_of(sessions, team, n);
        assert forall|k: int| 0 <= k < rows.len() && (#[trigger] rows[k]) is Fold implies 0
            < rows[k]->salt <= item_count(sessions, n) by {
            if k < before.len() {
                assert(before[k] is Fold);
            } else {
                assert(more[k - before.len()] is Fold);
            }
        }
        assert forall|k: int, l: int|
            0 <= k < l < rows.len() && (#[trigger] rows[k]) is Fold && (
            #[trigger] rows[l]) is Fold implies rows[k]->salt < rows[l]->salt by {
            if k < before.len() {
                assert(before[k] is Fold);
            } else {
                assert(more[k - before.len()] is Fold);
            }
            if l < before.len() {
                assert(before[l] is Fold);
            } else {
                assert(more[l - before.len()] is Fold);
            }
        }
    }
}

/// No two rows of the activity panel share a salt, so that rows with equal summaries are expanded
/// one by one.
pub proof fn law_salts_are_unique(v: ChatView, k: int, l: int)
    requires
        0 <= k < v.activity_rows().len(),
        0 <= l < v.activity_rows().len(),
        v.activity_rows()[k] is Fold,
        v.activity_rows()[l] is Fold,
        k != l,
    ensures
        v.activity_rows()[k]->salt != v.activity_rows()[l]->salt,
{
    lemma_salts(v.sessions, v.team(), v.sessions.len() as int);
}

/// The window asks for a decision exactly about the agents that wait for one, once each.
pub proof fn law_pending_requests_are_shown(
    sessions: Seq<SessionView>,
    team: bool,
    n: int,
    i: int,
)
    requires
        0 <= n <= sessions.len(),
        0 <= i < sessions.len(),
    ensures
        i < n && sessions[i].pending is Some ==> permissions_of(sessions, team, n).contains(
            permission_row(sessions[i], i, team),
        ),
        forall|k: int|
            0 <= k < permissions_of(sessions, team, n).len() ==> {
                let r = #[trigger] permissions_of(sessions, team, n)[k];
                &&& 0 <= r.session < n
                &&& sessions[r.session].pending is Some
                &&& r == permission_row(sessions[r.session], r.session, team)
            },
        forall|k: int, l: int|
            0 <= k < l < permissions_of(sessions, team, n).len() ==> (
            #[trigger] permissions_of(sessions, team, n)[k]).session < (
            #[trigger] permissions_of(sessions, team, n)[l]).session,
    decreases n,
{
    if n > 0 {
        law_pending_requests_are_shown(sessions, team, n - 1, i);
        let before = permissions_of(sessions, team, n - 1);
        let out = permissions_of(sessions, team, n);
        let row = permission_row(sessions[i], i, team);
        if sessions[n - 1].pending is Some {
            assert(out == before.push(permission_row(sessions[n - 1], n - 1, team)));
            if i < n - 1 && sessions[i].pending is Some {
                let k = choose|k: int| 0 <= k < before.len() && before[k] == row;
                assert(out[k] == row);
            }
            if i == n - 1 {
                assert(out[before.len() as int] == row);
            }
        }
    }
}

/// The status bar has one chip per agent, in order: its short name and colour, its status and whether
/// it is busy.
pub proof fn law_chips(v: ChatView, i: int)
    ensures
        v.chips().len() == v.sessions.len(),
        0 <= i < v.sessions.len() ==> ({
            let c = v.chips()[i];
            let s = v.sessions[i];
            &&& c.name == short_name(s.id) && c.color == s.color
            &&& c.status == s.status && c.busy == s.busy
        }),
{
}

/// The badge shows the mode in brackets: gray for the default mode, amber for any other.
pub proof fn law_badge(v: ChatView)
    ensures
        v.badge().0 == "["@ + v.mode + "]"@,
        v.mode == "default"@ ==> v.badge().1 == (Rgba { r: 160, g: 160, b: 160, a: 255 }),
        v.mode != "default"@ ==> v.badge().1 == (Rgba { r: 0xE0, g: 0xA0, b: 0x30, a: 255 }),
{
}

/// The hint says that all is over if no agent is alive; else how to address the agents.
pub proof fn law_hint(v: ChatView)
    ensures
        (forall|i: int| 0 <= i < v.sessions.len() ==> !(#[trigger] v.sessions[i]).alive)
            ==> v.hint() == "(all sessions ended)"@,
        (exists|i: int| 0 <= i < v.sessions.len() && (#[trigger] v.sessions[i]).alive) ==> v.hint()
            == if v.sessions.len() > 1 {
            "message all…  (@name to target · /help)"@
        } else {
            "message…  (/help for commands)"@
        },
{
}

/// The user's lines are tagged `you`, an agent's with its short name and colour and as Markdown, and
/// the window's own with a gray dot.
pub proof fn law_line_styles(v: ChatView, agent: int, text: Seq<char>)
    ensures
        ({
            let you = v.line_style(MsgView { who: Who::User, agent, text });
            let said = v.line_style(MsgView { who: Who::Agent, agent, text });
            let system = v.line_style(MsgView { who: Who::System, agent, text });
            &&& you.tag == "you"@ && !you.markdown
            &&& you.color == (Rgba { r: 0x6C, g: 0xB6, b: 0xFF, a: 255 })
            &&& said.tag == short_name(v.sessions[agent].id) && said.markdown
            &&& said.color == v.sessions[agent].color
            &&& system.tag == "·"@ && !system.markdown
            &&& system.color == (Rgba { r: 160, g: 160, b: 160, a: 255 })
        }),
{
}

/// A request is shown in amber with its tool, in a team also with the agent's short name, and with a
/// summary of its detail.
pub proof fn law_permission_row(s: SessionView, i: int)
    requires
        s.pending is Some,
    ensures
        ({
            let alone = permission_row(s, i, false);
            let team = permission_row(s, i, true);
            let p = s.pending->0;
            &&& alone.session == i && team.session == i
            &&& alone.label == "permission: "@ + p.tool + " "@
            &&& team.label == "permission ["@ + short_name(s.id) + "]: "@ + p.tool + " "@
            &&& alone.detail == truncated(p.detail, 120) && team.detail == truncated(p.detail, 120)
            &&& alone.color == (Rgba { r: 0xE0, g: 0xA0, b: 0x30, a: 255 })
            &&& team.color == (Rgba { r: 0xE0, g: 0xA0, b: 0x30, a: 255 })
        }),
{
}

/// The window asks about every agent that waits for a decision and about no other, each once and in the
/// agents' order; more than one agent makes a team.
pub proof fn law_permission_rows(v: ChatView, i: int, k: int)
    ensures
        0 <= i < v.sessions.len() && v.sessions[i].pending is Some ==> exists|m: int|
            0 <= m < v.permission_rows().len() && #[trigger] v.permission_rows()[m]
                == permission_row(v.sessions[i], i, v.sessions.len() > 1),
        0 <= k < v.permission_rows().len() ==> ({
            let r = v.permission_rows()[k];
            &&& 0 <= r.session < v.sessions.len() && v.sessions[r.session].pending is Some
            &&& r == permission_row(v.sessions[r.session], r.session, v.sessions.len() > 1)
            &&& k > 0 ==> v.permission_rows()[k - 1].session < r.session
        }),
{
    let n = v.sessions.len() as int;
    if n > 0 {
        let at = if 0 <= i < n {
            i
        } else {
            0
        };
        law_pending_requests_are_shown(v.sessions, v.team(), n, at);
        let row = permission_row(v.sessions[at], at, v.team());
        if v.sessions[at].pending is Some {
            let m = choose|m: int| 0 <= m < v.permission_rows().len() && v.permission_rows()[m] == row;
            assert(v.permission_rows()[m] == row);
        }
        if 0 < k < v.permission_rows().len() {
            assert(v.permission_rows()[k - 1].session < v.permission_rows()[k].session);
        }
    }
}

proof fn lemma_commands_from(typed: Seq<char>, n: int)
    requires
        0 <= n <= COMMANDS.len(),
    ensures
        forall|i: int|
            commands_from(typed, n).contains(i) <==> 0 <= i < n && typed.is_prefix_of(
                #[trigger] COMMANDS[i].0@.skip(1),
            ),
        forall|k: int|
            0 <= k < commands_from(typed, n).len() ==> 0 <= #[trigger] commands_from(typed, n)[k]
                < n,
        forall|k: int, l: int|
            0 <= k < l < commands_from(typed, n).len() ==> #[trigger] commands_from(typed, n)[k]
                < #[trigger] commands_from(typed, n)[l],
    decreases n,
{
    if n > 0 {
        lemma_commands_from(typed, n - 1);
        let before = commands_from(typed, n - 1);
        let out = commands_from(typed, n);
        assert forall|i: int| out.contains(i) <==> 0 <= i < n && typed.is_prefix_of(
            #[trigger] COMMANDS[i].0@.skip(1),
        ) by {
            if typed.is_prefix_of(COMMANDS[n - 1].0@.skip(1)) {
                assert(out[before.len() as int] == n - 1);
                if before.contains(i) {
                    let k = choose|k: int| 0 <= k < before.len() && before[k] == i;
                    assert(out[k] == i);
                }
                if out.contains(i) {
                    let k = choose|k: int| 0 <= k < out.len() && out[k] == i;
                    if k < before.len() {
                        assert(before[k] == i);
                        assert(before.contains(i));
                    }
                }
            }
        }
    }
}

/// The commands that are listed are those whose name starts with what was typed behind the slash, each
/// once and in the order of the list.
pub proof fn law_command_matches(v: ChatView, typed: Seq<char>, i: int, k: int)
    requires
        v.input == seq!['/'] + typed,
        0 <= i < COMMANDS.len(),
    ensures
        v.command_matches().contains(i) <==> (seq!['/'] + typed).is_prefix_of(COMMANDS[i].0@),
        0 <= k < v.command_matches().len() ==> 0 <= v.command_matches()[k] < COMMANDS.len(),
        0 < k < v.command_matches().len() ==> v.command_matches()[k - 1] < v.command_matches()[k],
{
    lemma_commands_from(typed, COMMANDS.len() as int);
    lemma_command_names(i);
    assert(v.input.skip(1) =~= typed);
    let full = COMMANDS[i].0@;
    let name = full.skip(1);
    let line = seq!['/'] + typed;
    if typed.is_prefix_of(name) {
        assert forall|j: int| 0 <= j < line.len() implies line[j] == full.subrange(
            0,
            line.len() as int,
        )[j] by {
            if j > 0 {
                assert(typed[j - 1] == name.subrange(0, typed.len() as int)[j - 1]);
            }
        }
        assert(line =~= full.subrange(0, line.len() as int));
    }
    if line.is_prefix_of(full) {
        assert forall|j: int| 0 <= j < typed.len() implies typed[j] == name.subrange(
            0,
            typed.len() as int,
        )[j] by {
            assert(line[j + 1] == full.subrange(0, line.len() as int)[j + 1]);
        }
        assert(typed =~= name.subrange(0, typed.len() as int));
    }
}

/// The items that rows of the activity panel show, in order.
pub open spec fn shown_items(rows: Seq<ActivityRowView>) -> Seq<ItemView>
    decreases rows.len(),
{
    if rows.len() == 0 {
        Seq::empty()
    } else {
        let before = shown_items(rows.drop_last());
        match rows.last() {
            ActivityRowView::Flat { text } => before.push(
                ItemView { summary: text, body: Seq::empty() },
            ),
            ActivityRowView::Fold { summary, body, .. } => before.push(ItemView { summary, body }),
            _ => before,
        }
    }
}

/// The activity of the first `n` agents, agent after agent.
pub open spec fn all_items(sessions: Seq<SessionView>, n: int) -> Seq<ItemView>
    decreases n,
{
    if n <= 0 {
        Seq::empty()
    } else {
        all_items(sessions, n - 1) + sessions[n - 1].activity
    }
}

proof fn lemma_shown_items(a: Seq<ActivityRowView>, b: Seq<ActivityRowView>)
    ensures
        shown_items(a + b) == shown_items(a) + shown_items(b),
    decreases b.len(),
{
    if b.len() == 0 {
        assert(a + b =~= a);
        assert(shown_items(a) + shown_items(b) =~= shown_items(a));
    } else {
        lemma_shown_items(a, b.drop_last());
        assert((a + b).drop_last() =~= a + b.drop_last());
        assert((a + b).last() == b.last());
        assert(shown_items(a + b) =~= shown_items(a) + shown_items(b));
    }
}

proof fn lemma_item_rows_show(first: int, items: Seq<ItemView>)
    ensures
        shown_items(item_rows(first, items)) == items,
    decreases items.len(),
{
    let rows = item_rows(first, items);
    if items.len() > 0 {
        let init = items.drop_last();
        lemma_item_rows_show(first, init);
        assert(rows.drop_last() =~= item_rows(first, init));
        assert(rows.last() == item_row(first + items.len() - 1, items.last()));
        if items.last().body.len() == 0 {
            assert(items.last().body =~= Seq::<char>::empty());
        }
        assert(init.push(items.last()) =~= items);
    } else {
        assert(rows =~= Seq::<ActivityRowView>::empty());
        assert(items =~= Seq::<ItemView>::empty());
    }
}

proof fn lemma_rows_show(sessions: Seq<SessionView>, team: bool, n: int)
    requires
        0 <= n <= sessions.len(),
    ensures
        shown_items(rows_of(sessions, team, n)) == all_items(sessions, n),
        rows_of(sessions, team, n).len() == 0 <==> all_items(sessions, n).len() == 0,
    decreases n,
{
    if n > 0 {
        lemma_rows_show(sessions, team, n - 1);
        let s = sessions[n - 1];
        let first = item_count(sessions, n - 1) + 1;
        let rows = item_rows(first, s.activity);
        let more = session_rows(s, team, first);
        lemma_shown_items(rows_of(sessions, team, n - 1), more);
        lemma_item_rows_show(first, s.activity);
        if s.activity.len() == 0 {
            assert(s.activity =~= Seq::<ItemView>::empty());
        } else if team {
            let head = seq![ActivityRowView::Heading { name: short_name(s.id), color: s.color }];
            let gap = seq![ActivityRowView::Gap];
            lemma_shown_items(head + rows, gap);
            lemma_shown_items(head, rows);
            assert(head.drop_last() =~= Seq::<ActivityRowView>::empty());
            assert(gap.drop_last() =~= Seq::<ActivityRowView>::empty());
            assert(shown_items(head.drop_last()) =~= Seq::<ItemView>::empty());
            assert(shown_items(gap.drop_last()) =~= Seq::<ItemView>::empty());
            assert(head.last() is Heading && gap.last() is Gap);
            assert(shown_items(more) =~= s.activity);
        }
    }
}

/// The activity panel shows every item of every agent, agent after agent and in order, and nothing
/// else; if there is none, it says so.
pub proof fn law_panel_shows_all_activity(v: ChatView)
    ensures
        shown_items(v.activity_rows()) == all_items(v.sessions, v.sessions.len() as int),
        all_items(v.sessions, v.sessions.len() as int).len() == 0 ==> v.activity_rows().len() == 1
            && v.activity_rows()[0] == (ActivityRowView::Note { text: "(no tool activity yet)"@ }),
{
    let n = v.sessions.len() as int;
    lemma_rows_show(v.sessions, v.team(), n);
    let rows = v.activity_rows();
    if rows_of(v.sessions, v.team(), n).len() == 0 {
        assert(rows.drop_last() =~= Seq::<ActivityRowView>::empty());
        assert(shown_items(rows) =~= Seq::<ItemView>::empty());
        assert(all_items(v.sessions, n) =~= Seq::<ItemView>::empty());
    }
}

/// The rows of one agent: in a team its short name in its colour comes before them and a gap after
/// them. An item with a body can be expanded, one without is flat. An agent without activity has no
/// rows at all.
pub proof fn law_rows_of_agent(s: SessionView, team: bool, first: int, k: int)
    ensures
        ({
            let rows = session_rows(s, team, first);
            let at = if team {
                k + 1
            } else {
                k
            };
            &&& s.activity.len() == 0 ==> rows.len() == 0
            &&& s.activity.len() > 0 && team ==> rows.len() == s.activity.len() + 2 && rows[0] == (
            ActivityRowView::Heading { name: short_name(s.id), color: s.color })
                && rows.last() is Gap
            &&& s.activity.len() > 0 && !team ==> rows.len() == s.activity.len()
            &&& 0 <= k < s.activity.len() ==> ({
                let it = s.activity[k];
                &&& it.body.len() == 0 ==> rows[at] == (ActivityRowView::Flat { text: it.summary })
                &&& it.body.len() > 0 ==> rows[at] is Fold && rows[at]->summary == it.summary
                    && rows[at]->body == it.body && rows[at]->salt == first + k
            })
        }),
{
    let rows = session_rows(s, team, first);
    if 0 <= k < s.activity.len() {
        assert(item_rows(first, s.activity)[k] == item_row(first + k, s.activity[k]));
    }
}

/// The panel is made of the agents' rows, one agent after the other, with headings and gaps exactly if
/// there is more than one agent. The rows of an agent are numbered on from the items before them.
pub proof fn law_panel_goes_by_agent(v: ChatView, n: int)
    requires
        0 < n <= v.sessions.len(),
    ensures
        rows_of(v.sessions, v.sessions.len() > 1, 0) == Seq::<ActivityRowView>::empty(),
        rows_of(v.sessions, v.sessions.len() > 1, n) == rows_of(
            v.sessions,
            v.sessions.len() > 1,
            n - 1,
        ) + session_rows(
            v.sessions[n - 1],
            v.sessions.len() > 1,
            all_items(v.sessions, n - 1).len() as int + 1,
        ),
        rows_of(v.sessions, v.sessions.len() > 1, v.sessions.len() as int).len() > 0
            ==> v.activity_rows() == rows_of(
            v.sessions,
            v.sessions.len() > 1,
            v.sessions.len() as int,
        ),
{
    lemma_items_counted(v.sessions, n - 1);
}

proof fn lemma_items_counted(sessions: Seq<SessionView>, n: int)
    requires
        0 <= n <= sessions.len(),
    ensures
        item_count(sessions, n) == all_items(sessions, n).len(),
    decreases n,
{
    if n > 0 {
        lemma_items_counted(sessions, n - 1);
    }
}

/// What the panels show means what its fields hold.
pub proof fn law_panels_mean_their_fields(
    chip: Chip,
    rows: Seq<ActivityRow>,
    requests: Seq<PermissionRow>,
    style: LineStyle,
    k: int,
)
    ensures
        chip@.name == chip.name@ && chip@.color == chip.color,
        chip@.status == chip.status@ && chip@.busy == chip.busy,
        style@.tag == style.tag@ && style@.color == style.color,
        style@.markdown == style.markdown,
        permission_rows_view(requests).len() == requests.len(),
        0 <= k < requests.len() ==> ({
            let r = permission_rows_view(requests)[k];
            &&& r.session == requests[k].session && r.label == requests[k].label@
            &&& r.color == requests[k].color && r.detail == requests[k].detail@
        }),
        activity_rows_view(rows).len() == rows.len(),
        0 <= k < rows.len() ==> ({
            let r = activity_rows_view(rows)[k];
            match rows[k] {
                ActivityRow::Heading { name, color } => r == (ActivityRowView::Heading {
                    name: name@,
                    color,
                }),
                ActivityRow::Flat { text } => r == (ActivityRowView::Flat { text: text@ }),
                ActivityRow::Fold { salt, summary, body } => r == (ActivityRowView::Fold {
                    salt: salt as int,
                    summary: summary@,
                    body: body@,
                }),
                ActivityRow::Gap => r is Gap,
                ActivityRow::Note { text } => r == (ActivityRowView::Note { text: text@ }),
            }
        }),
{
}

} // verus!
