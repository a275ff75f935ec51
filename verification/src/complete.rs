//! Completions for an input line that starts with `@`.

use crate::chat::{short_names, ChatApp, ChatView};
use crate::label::{short, short_name};
use crate::text::{
    begins_with, lemma_positions, lemma_text_le_total, lemma_text_le_transitive, lowercase,
    lowers_ascii, not_after, positions, skip_chars, starts_with, text_le, texts, to_lowercase,
};
use vstd::prelude::*;

verus! {

/// An entry of the directory that completions are taken from.
#[derive(Debug)]
pub struct DirItem {
    pub name: String,
    pub is_dir: bool,
}

/// A [`DirItem`] as a mathematical value.
pub struct DirItemView {
    pub name: Seq<char>,
    pub is_dir: bool,
}

impl View for DirItem {
    type V = DirItemView;

    open spec fn view(&self) -> DirItemView {
        DirItemView { name: self.name@, is_dir: self.is_dir }
    }
}

/// The views of a directory listing.
pub open spec fn listing_view(v: Seq<DirItem>) -> Seq<DirItemView> {
    v.map_values(|d: DirItem| d@)
}

/// A row of the completion list: what it shows, and the input line that it stands for.
#[derive(Debug, PartialEq, Eq)]
pub struct Suggestion {
    pub label: String,
    pub insert: String,
}

/// A [`Suggestion`] as a mathematical value.
#[verifier::ext_equal]
pub struct SuggestionView {
    pub label: Seq<char>,
    pub insert: Seq<char>,
}

impl View for Suggestion {
    type V = SuggestionView;

    open spec fn view(&self) -> SuggestionView {
        SuggestionView { label: self.label@, insert: self.insert@ }
    }
}

/// The views of a completion list.
pub open spec fn suggestions_view(v: Seq<Suggestion>) -> Seq<SuggestionView> {
    v.map_values(|s: Suggestion| s@)
}

pub proof fn lemma_suggestions_push(v: Seq<Suggestion>, s: Suggestion)
    ensures
        suggestions_view(v.push(s)) == suggestions_view(v).push(s@),
{
    assert(suggestions_view(v.push(s)) =~= suggestions_view(v).push(s@));
}

// ---------------------------------------------------------------------------
// Rows in order
// ---------------------------------------------------------------------------

/// `rows` with `row` put behind the last one whose label does not come after its own.
pub open spec fn inserted(rows: Seq<SuggestionView>, row: SuggestionView) -> Seq<SuggestionView>
    decreases rows.len(),
{
    if rows.len() == 0 || text_le(rows.last().label, row.label) {
        rows.push(row)
    } else {
        inserted(rows.drop_last(), row).push(rows.last())
    }
}

/// `rows` in the order of their labels; rows with equal labels stay in their order.
pub open spec fn sorted(rows: Seq<SuggestionView>) -> Seq<SuggestionView>
    decreases rows.len(),
{
    if rows.len() == 0 {
        rows
    } else {
        inserted(sorted(rows.drop_last()), rows.last())
    }
}

/// Two ordered lists in one, rows of `a` before rows of `b` with an equal label.
spec fn merged(a: Seq<SuggestionView>, b: Seq<SuggestionView>) -> Seq<SuggestionView>
    decreases a.len() + b.len(),
{
    if b.len() == 0 {
        a
    } else if a.len() == 0 {
        b
    } else if text_le(a.last().label, b.last().label) {
        merged(a, b.drop_last()).push(b.last())
    } else {
        merged(a.drop_last(), b).push(a.last())
    }
}

proof fn lemma_inserted_len(rows: Seq<SuggestionView>, row: SuggestionView)
    ensures
        inserted(rows, row).len() == rows.len() + 1,
    decreases rows.len(),
{
    if rows.len() > 0 && !text_le(rows.last().label, row.label) {
        lemma_inserted_len(rows.drop_last(), row);
    }
}

proof fn lemma_inserted_merged(
    a: Seq<SuggestionView>,
    b: Seq<SuggestionView>,
    row: SuggestionView,
)
    ensures
        inserted(merged(a, b), row) == merged(a, inserted(b, row)),
    decreases a.len() + b.len(),
{
    let m = merged(a, b);
    let c = inserted(b, row);
    lemma_inserted_len(b, row);
    if b.len() == 0 {
        assert(c.drop_last() =~= b);
        if a.len() > 0 && !text_le(a.last().label, row.label) {
            lemma_inserted_merged(a.drop_last(), b, row);
        }
    } else if a.len() == 0 {
    } else if text_le(a.last().label, b.last().label) {
        assert(m.drop_last() =~= merged(a, b.drop_last()));
        if text_le(b.last().label, row.label) {
            lemma_text_le_transitive(a.last().label, b.last().label, row.label);
            assert(c.drop_last() =~= b);
        } else {
            lemma_inserted_merged(a, b.drop_last(), row);
            assert(c.drop_last() =~= inserted(b.drop_last(), row));
        }
    } else {
        assert(m.drop_last() =~= merged(a.drop_last(), b));
        if text_le(a.last().label, row.label) {
            lemma_text_le_total(a.last().label, b.last().label);
            lemma_text_le_transitive(b.last().label, a.last().label, row.label);
            assert(c.drop_last() =~= b);
        } else {
            lemma_inserted_merged(a.drop_last(), b, row);
        }
    }
}

proof fn lemma_merged_sorted(p: Seq<SuggestionView>, q: Seq<SuggestionView>)
    ensures
        merged(sorted(p), sorted(q)) == sorted(p + q),
    decreases q.len(),
{
    if q.len() == 0 {
        assert(p + q =~= p);
    } else {
        assert((p + q).drop_last() =~= p + q.drop_last());
        lemma_merged_sorted(p, q.drop_last());
        lemma_inserted_merged(sorted(p), sorted(q.drop_last()), q.last());
    }
}

/// The rows at the given positions.
spec fn picked(rows: Seq<SuggestionView>, order: Seq<usize>) -> Seq<SuggestionView> {
    order.map_values(|i: usize| rows[i as int])
}

spec fn in_range(order: Seq<usize>, n: nat) -> bool {
    forall|k: int| 0 <= k < order.len() ==> #[trigger] order[k] < n
}

proof fn lemma_last_of_b(a: Seq<SuggestionView>, b: Seq<SuggestionView>)
    requires
        b.len() > 0,
        a.len() == 0 || text_le(a.last().label, b.last().label),
    ensures
        merged(a, b) == merged(a, b.drop_last()).push(b.last()),
{
    if a.len() == 0 {
        assert(merged(a, b.drop_last()) =~= b.drop_last());
        assert(b =~= b.drop_last().push(b.last()));
    }
}

proof fn lemma_last_of_a(a: Seq<SuggestionView>, b: Seq<SuggestionView>)
    requires
        a.len() > 0,
        b.len() == 0 || !text_le(a.last().label, b.last().label),
    ensures
        merged(a, b) == merged(a.drop_last(), b).push(a.last()),
{
    if b.len() == 0 {
        assert(a =~= a.drop_last().push(a.last()));
    }
}

/// Putting `at` in front of the rest of an order.
proof fn lemma_picked_next(
    rows: Seq<SuggestionView>,
    order: Seq<usize>,
    k: int,
    at: usize,
    before: Seq<SuggestionView>,
)
    requires
        0 <= k < order.len(),
    ensures
        before.push(rows[at as int]) + picked(rows, order.skip(k + 1)) == before + picked(
            rows,
            order.update(k, at).skip(k),
        ),
{
    assert(picked(rows, order.update(k, at).skip(k)) =~= seq![rows[at as int]] + picked(
        rows,
        order.skip(k + 1),
    ));
    assert(before.push(rows[at as int]) + picked(rows, order.skip(k + 1)) =~= before + (seq![
        rows[at as int],
    ] + picked(rows, order.skip(k + 1))));
}

fn merge(rows: &Vec<Suggestion>, a: &Vec<usize>, b: &Vec<usize>) -> (out: Vec<usize>)
    requires
        in_range(a@, rows@.len()),
        in_range(b@, rows@.len()),
        a@.len() + b@.len() <= usize::MAX,
    ensures
        in_range(out@, rows@.len()),
        picked(suggestions_view(rows@), out@) == merged(
            picked(suggestions_view(rows@), a@),
            picked(suggestions_view(rows@), b@),
        ),
        out@.len() == a@.len() + b@.len(),
{
    let ghost all = suggestions_view(rows@);
    let ghost pa = picked(all, a@);
    let ghost pb = picked(all, b@);
    let n: usize = a.len() + b.len();
    let mut out: Vec<usize> = vec![0usize; n];
    let mut i: usize = a.len();
    let mut j: usize = b.len();
    proof {
        assert(pa.take(i as int) =~= pa);
        assert(pb.take(j as int) =~= pb);
        assert(picked(all, out@.skip(n as int)) =~= Seq::<SuggestionView>::empty());
        assert(merged(pa, pb) =~= merged(pa, pb) + Seq::<SuggestionView>::empty());
    }
    while i > 0 || j > 0
        invariant
            i <= a.len(),
            j <= b.len(),
            n == a.len() + b.len(),
            out.len() == n,
            all == suggestions_view(rows@),
            pa == picked(all, a@),
            pb == picked(all, b@),
            in_range(a@, rows@.len()),
            in_range(b@, rows@.len()),
            forall|k: int| i + j <= k < n ==> #[trigger] out@[k] < rows.len(),
            merged(pa, pb) == merged(pa.take(i as int), pb.take(j as int)) + picked(
                all,
                out@.skip(i + j),
            ),
        decreases i + j,
    {
        let ghost ta = pa.take(i as int);
        let ghost tb = pb.take(j as int);
        let ghost order = out@;
        let from_b = if j == 0 {
            false
        } else if i == 0 {
            true
        } else {
            assert(ta.last() == rows@[a@[i - 1] as int]@);
            assert(tb.last() == rows@[b@[j - 1] as int]@);
            not_after(rows[a[i - 1]].label.as_str(), rows[b[j - 1]].label.as_str())
        };
        let k: usize = i + j - 1;
        if from_b {
            out.set(k, b[j - 1]);
            proof {
                assert(tb.drop_last() =~= pb.take(j - 1));
                assert(tb.last() == all[b@[j - 1] as int]);
                lemma_last_of_b(ta, tb);
                lemma_picked_next(all, order, k as int, b@[j - 1], merged(ta, pb.take(j - 1)));
            }
            j -= 1;
        } else {
            out.set(k, a[i - 1]);
            proof {
                assert(ta.drop_last() =~= pa.take(i - 1));
                assert(ta.last() == all[a@[i - 1] as int]);
                lemma_last_of_a(ta, tb);
                lemma_picked_next(all, order, k as int, a@[i - 1], merged(pa.take(i - 1), tb));
            }
            i -= 1;
        }
    }
    proof {
        assert(out@.skip(0) =~= out@);
        assert(merged(pa.take(0), pb.take(0)) =~= Seq::<SuggestionView>::empty());
        assert(merged(pa, pb) =~= picked(all, out@));
    }
    out
}

/// The positions of the rows from `from` up to `to`, in the order of their labels.
fn sort_order(rows: &Vec<Suggestion>, from: usize, to: usize) -> (order: Vec<usize>)
    requires
        from <= to <= rows@.len(),
    ensures
        in_range(order@, rows@.len()),
        order@.len() == to - from,
        picked(suggestions_view(rows@), order@) == sorted(
            suggestions_view(rows@).subrange(from as int, to as int),
        ),
    decreases to - from,
{
    let ghost all = suggestions_view(rows@);
    let ghost part = all.subrange(from as int, to as int);
    if to - from <= 1 {
        let mut order: Vec<usize> = Vec::new();
        if from < to {
            order.push(from);
            proof {
                assert(part.drop_last() =~= Seq::<SuggestionView>::empty());
                assert(sorted(part.drop_last()) =~= Seq::<SuggestionView>::empty());
                assert(sorted(part) =~= seq![part[0]]);
            }
        }
        assert(picked(all, order@) =~= sorted(part));
        order
    } else {
        let mid: usize = from + (to - from) / 2;
        let a = sort_order(rows, from, mid);
        let b = sort_order(rows, mid, to);
        proof {
            let p = all.subrange(from as int, mid as int);
            let q = all.subrange(mid as int, to as int);
            assert(p + q =~= part);
            lemma_merged_sorted(p, q);
        }
        merge(rows, &a, &b)
    }
}

// ---------------------------------------------------------------------------
// Rows
// ---------------------------------------------------------------------------

/// The row for an agent: the `@` stays, for routing.
pub open spec fn agent_row(name: Seq<char>) -> SuggestionView {
    SuggestionView { label: "@"@ + name + "  (agent)"@, insert: "@"@ + name + " "@ }
}

/// The row for a file or a directory: the bare name, with a trailing `/` for a directory.
pub open spec fn file_row(item: DirItemView) -> SuggestionView {
    if item.is_dir {
        SuggestionView { label: item.name + "/"@ + "  (file)"@, insert: item.name + "/"@ }
    } else {
        SuggestionView { label: item.name + "  (file)"@, insert: item.name + " "@ }
    }
}

/// The rows for those of the first `n` agents whose name in lower case starts with `frag`.
pub open spec fn agent_rows(
    names: Seq<Seq<char>>,
    lower: Seq<Seq<char>>,
    frag: Seq<char>,
    n: int,
) -> Seq<SuggestionView>
    decreases n,
{
    if n <= 0 {
        Seq::empty()
    } else {
        let before = agent_rows(names, lower, frag, n - 1);
        if frag.is_prefix_of(lower[n - 1]) {
            before.push(agent_row(names[n - 1]))
        } else {
            before
        }
    }
}

/// Whether an entry named `name`, `lower` in lower case, completes `frag`: hidden entries never do.
pub open spec fn completes(name: Seq<char>, lower: Seq<char>, frag: Seq<char>) -> bool {
    !(name.len() > 0 && name[0] == '.') && frag.is_prefix_of(lower)
}

/// The rows for those of the first `n` entries that complete `frag`.
pub open spec fn file_rows(
    items: Seq<DirItemView>,
    lower: Seq<Seq<char>>,
    frag: Seq<char>,
    n: int,
) -> Seq<SuggestionView>
    decreases n,
{
    if n <= 0 {
        Seq::empty()
    } else {
        let before = file_rows(items, lower, frag, n - 1);
        if completes(items[n - 1].name, lower[n - 1], frag) {
            before.push(file_row(items[n - 1]))
        } else {
            before
        }
    }
}

/// Each of `names` in lower case.
pub open spec fn lowered(names: Seq<Seq<char>>) -> Seq<Seq<char>> {
    names.map_values(|s: Seq<char>| lowercase(s))
}

/// The lower case of those of `names` that are ASCII text is their ASCII lower case.
pub open spec fn all_lower_ascii(names: Seq<Seq<char>>) -> bool {
    forall|i: int| 0 <= i < names.len() ==> lowers_ascii(#[trigger] names[i])
}

/// The names of a directory listing.
pub open spec fn item_names(items: Seq<DirItemView>) -> Seq<Seq<char>> {
    items.map_values(|d: DirItemView| d.name)
}

/// The first twelve of `rows`.
pub open spec fn capped(rows: Seq<SuggestionView>) -> Seq<SuggestionView> {
    if rows.len() <= 12 {
        rows
    } else {
        rows.take(12)
    }
}

impl ChatView {
    /// The completions of `frag`, given it and all names in lower case: team agents first, then the
    /// entries of a directory in order.
    pub open spec fn suggested(
        self,
        frag: Seq<char>,
        lower_agents: Seq<Seq<char>>,
        items: Seq<DirItemView>,
        lower_items: Seq<Seq<char>>,
    ) -> Seq<SuggestionView> {
        let agents = if self.team() {
            agent_rows(
                short_names(self.sessions),
                lower_agents,
                frag,
                self.sessions.len() as int,
            )
        } else {
            Seq::empty()
        };
        capped(agents + sorted(file_rows(items, lower_items, frag, items.len() as int)))
    }

    /// The completions of `frag` from the agents and `items`.
    pub open spec fn at_suggestions(self, frag: Seq<char>, items: Seq<DirItemView>) -> Seq<
        SuggestionView,
    > {
        self.suggested(
            lowercase(frag),
            lowered(short_names(self.sessions)),
            items,
            lowered(item_names(items)),
        )
    }
}

fn make_agent_row(name: &str) -> (row: Suggestion)
    ensures
        row@ == agent_row(name@),
{
    let mut label = "@".to_owned();
    label.append(name);
    label.append("  (agent)");
    let mut insert = "@".to_owned();
    insert.append(name);
    insert.append(" ");
    Suggestion { label, insert }
}

fn make_file_row(item: &DirItem) -> (row: Suggestion)
    ensures
        row@ == file_row(item@),
{
    let mut label = item.name.clone();
    let mut insert = item.name.clone();
    if item.is_dir {
        label.append("/");
        insert.append("/");
    } else {
        insert.append(" ");
    }
    label.append("  (file)");
    Suggestion { label, insert }
}

fn list_files(frag: &str, items: &Vec<DirItem>, lower: &Vec<String>) -> (rows: Vec<Suggestion>)
    requires
        lower@.len() == items@.len(),
    ensures
        suggestions_view(rows@) == file_rows(
            listing_view(items@),
            texts(lower@),
            frag@,
            items@.len() as int,
        ),
{
    let mut rows: Vec<Suggestion> = Vec::new();
    let mut i: usize = 0;
    assert(suggestions_view(rows@) =~= Seq::<SuggestionView>::empty());
    while i < items.len()
        invariant
            i <= items@.len() == lower@.len(),
            suggestions_view(rows@) == file_rows(
                listing_view(items@),
                texts(lower@),
                frag@,
                i as int,
            ),
        decreases items.len() - i,
    {
        let item = &items[i];
        assert(listing_view(items@)[i as int] == item@);
        assert(texts(lower@)[i as int] == lower@[i as int]@);
        if !begins_with(item.name.as_str(), '.') && starts_with(lower[i].as_str(), frag) {
            let row = make_file_row(item);
            proof {
                lemma_suggestions_push(rows@, row);
            }
            rows.push(row);
        }
        i += 1;
    }
    rows
}

impl ChatApp {
    fn list_agents(&self, frag: &str, lower: &Vec<String>) -> (rows: Vec<Suggestion>)
        requires
            lower@.len() == self.sessions@.len(),
        ensures
            suggestions_view(rows@) == if self@.team() {
                agent_rows(
                    short_names(self@.sessions),
                    texts(lower@),
                    frag@,
                    self.sessions@.len() as int,
                )
            } else {
                Seq::empty()
            },
    {
        let mut rows: Vec<Suggestion> = Vec::new();
        assert(suggestions_view(rows@) =~= Seq::<SuggestionView>::empty());
        if self.team() {
            let mut i: usize = 0;
            while i < self.sessions.len()
                invariant
                    i <= self.sessions@.len() == lower@.len(),
                    suggestions_view(rows@) == agent_rows(
                        short_names(self@.sessions),
                        texts(lower@),
                        frag@,
                        i as int,
                    ),
                decreases self.sessions.len() - i,
            {
                assert(texts(lower@)[i as int] == lower@[i as int]@);
                if starts_with(lower[i].as_str(), frag) {
                    let row = make_agent_row(short(self.sessions[i].id.as_str()));
                    proof {
                        assert(short_names(self@.sessions)[i as int] == short_name(
                            self.sessions@[i as int].id@,
                        ));
                        lemma_suggestions_push(rows@, row);
                    }
                    rows.push(row);
                }
                i += 1;
            }
        }
        rows
    }

    /// Completions of `frag`, which is in lower case, as are the agents' short names in
    /// `lower_agents` and the names of `items` in `lower_items`.
    pub fn suggest(
        &self,
        frag: &str,
        lower_agents: &Vec<String>,
        items: &Vec<DirItem>,
        lower_items: &Vec<String>,
    ) -> (rows: Vec<Suggestion>)
        requires
            lower_agents@.len() == self.sessions@.len(),
            lower_items@.len() == items@.len(),
        ensures
            suggestions_view(rows@) == self@.suggested(
                frag@,
                texts(lower_agents@),
                listing_view(items@),
                texts(lower_items@),
            ),
    {
        let mut rows = self.list_agents(frag, lower_agents);
        let files = list_files(frag, items, lower_items);
        let order = sort_order(&files, 0, files.len());
        let ghost agents = suggestions_view(rows@);
        let ghost in_order = sorted(suggestions_view(files@));
        proof {
            let all = suggestions_view(files@);
            assert(all.subrange(0, all.len() as int) =~= all);
            assert(agents + in_order.take(0) =~= agents);
        }
        let mut k: usize = 0;
        while k < order.len() && rows.len() < 12
            invariant
                k <= order@.len(),
                in_range(order@, files@.len()),
                picked(suggestions_view(files@), order@) == in_order,
                suggestions_view(rows@) == agents + in_order.take(k as int),
            decreases order.len() - k,
        {
            let row = &files[order[k]];
            let copy = Suggestion { label: row.label.clone(), insert: row.insert.clone() };
            proof {
                lemma_suggestions_push(rows@, copy);
                assert(in_order[k as int] == copy@);
                assert((agents + in_order.take(k as int)).push(copy@) =~= agents + in_order.take(
                    k + 1,
                ));
            }
            rows.push(copy);
            k += 1;
        }
        proof {
            let all = agents + in_order;
            if k == order@.len() {
                assert(agents + in_order.take(k as int) =~= all);
            }
            assert(suggestions_view(rows@) =~= all.take(rows@.len() as int));
        }
        if rows.len() > 12 {
            let ghost long = rows@;
            rows.truncate(12);
            assert(suggestions_view(rows@) =~= suggestions_view(long).take(12));
        }
        assert(suggestions_view(rows@) =~= capped(agents + in_order));
        rows
    }

    /// Completions for an `@`-prefixed input, of which `frag` is what follows the `@`: team agents
    /// first, then the `items` of the directory that the window was opened in. Capped so that the
    /// list stays small.
    pub fn at_suggestions(&self, frag: &str, items: &Vec<DirItem>) -> (rows: Vec<Suggestion>)
        ensures
            suggestions_view(rows@) == self@.at_suggestions(frag@, listing_view(items@)),
            lowers_ascii(frag@),
            all_lower_ascii(short_names(self@.sessions)),
            all_lower_ascii(item_names(listing_view(items@))),
    {
        let mut agents: Vec<String> = Vec::new();
        let ghost names = short_names(self@.sessions);
        let mut i: usize = 0;
        while i < self.sessions.len()
            invariant
                i <= self.sessions@.len(),
                names == short_names(self@.sessions),
                agents@.len() == i,
                forall|j: int| 0 <= j < i ==> (#[trigger] agents@[j])@ == lowercase(names[j]),
                forall|j: int| 0 <= j < i ==> lowers_ascii(#[trigger] names[j]),
            decreases self.sessions.len() - i,
        {
            agents.push(to_lowercase(short(self.sessions[i].id.as_str())));
            i += 1;
        }
        assert(texts(agents@) =~= lowered(names));
        let mut files: Vec<String> = Vec::new();
        let ghost entries = item_names(listing_view(items@));
        let mut j: usize = 0;
        while j < items.len()
            invariant
                j <= items@.len(),
                entries == item_names(listing_view(items@)),
                files@.len() == j,
                forall|k: int| 0 <= k < j ==> (#[trigger] files@[k])@ == lowercase(entries[k]),
                forall|k: int| 0 <= k < j ==> lowers_ascii(#[trigger] entries[k]),
            decreases items.len() - j,
        {
            files.push(to_lowercase(items[j].name.as_str()));
            j += 1;
        }
        assert(texts(files@) =~= lowered(entries));
        let lower = to_lowercase(frag);
        self.suggest(lower.as_str(), &agents, items, &files)
    }

    /// The completion list of the input line, when it starts with `@`.
    pub fn completions(&self, items: &Vec<DirItem>) -> (rows: Option<Vec<Suggestion>>)
        ensures
            rows is Some <==> self@.input.len() > 0 && self@.input[0] == '@',
            rows is Some ==> suggestions_view(rows->0@) == self@.at_suggestions(
                self@.input.skip(1),
                listing_view(items@),
            ),
            rows is Some ==> lowers_ascii(self@.input.skip(1)),
            rows is Some ==> all_lower_ascii(short_names(self@.sessions)),
            rows is Some ==> all_lower_ascii(item_names(listing_view(items@))),
    {
        if begins_with(self.input.as_str(), '@') {
            let frag = skip_chars(self.input.as_str(), 1);
            Some(self.at_suggestions(frag.as_str(), items))
        } else {
            None
        }
    }
}

// ---------------------------------------------------------------------------
// Laws
// ---------------------------------------------------------------------------

/// The labels of `rows` never go down.
pub open spec fn is_sorted(rows: Seq<SuggestionView>) -> bool {
    forall|i: int, j: int|
        0 <= i <= j < rows.len() ==> text_le((#[trigger] rows[i]).label, (#[trigger] rows[j]).label)
}

/// The rows labelled `label`, in order.
pub open spec fn labelled(rows: Seq<SuggestionView>, label: Seq<char>) -> Seq<SuggestionView> {
    rows.filter(|r: SuggestionView| r.label == label)
}

proof fn lemma_labelled_push(rows: Seq<SuggestionView>, row: SuggestionView, label: Seq<char>)
    ensures
        labelled(rows.push(row), label) == if row.label == label {
            labelled(rows, label).push(row)
        } else {
            labelled(rows, label)
        },
{
    reveal(Seq::filter);
    assert(rows.push(row).drop_last() =~= rows);
}

proof fn lemma_inserted(rows: Seq<SuggestionView>, row: SuggestionView, label: Seq<char>)
    requires
        is_sorted(rows),
    ensures
        is_sorted(inserted(rows, row)),
        inserted(rows, row).to_multiset() == rows.to_multiset().insert(row),
        labelled(inserted(rows, row), label) == labelled(rows.push(row), label),
        inserted(rows, row).len() == rows.len() + 1,
        inserted(rows, row).last() == row || rows.len() > 0 && inserted(rows, row).last()
            == rows.last(),
    decreases rows.len(),
{
    broadcast use vstd::seq_lib::group_to_multiset_ensures;

    let out = inserted(rows, row);
    if rows.len() == 0 || text_le(rows.last().label, row.label) {
        assert forall|i: int, j: int| 0 <= i <= j < out.len() implies text_le(
            (#[trigger] out[i]).label,
            (#[trigger] out[j]).label,
        ) by {
            lemma_text_le_total(row.label, row.label);
            if j == rows.len() && i < j {
                lemma_text_le_transitive(rows[i].label, rows.last().label, row.label);
            }
        }
    } else {
        let init = rows.drop_last();
        let last = rows.last();
        assert(is_sorted(init));
        lemma_inserted(init, row, label);
        lemma_text_le_total(last.label, row.label);
        let inner = inserted(init, row);
        assert(rows =~= init.push(last));
        assert forall|i: int, j: int| 0 <= i <= j < out.len() implies text_le(
            (#[trigger] out[i]).label,
            (#[trigger] out[j]).label,
        ) by {
            if j == inner.len() {
                lemma_text_le_total(last.label, last.label);
                if i < j {
                    assert(text_le(inner[i].label, inner.last().label));
                    if inner.last() == row {
                    } else {
                        assert(text_le(rows[rows.len() - 2].label, rows[rows.len() - 1].label));
                    }
                    lemma_text_le_transitive(inner[i].label, inner.last().label, last.label);
                }
            }
        }
        lemma_labelled_push(inner, last, label);
        lemma_labelled_push(init, row, label);
        lemma_labelled_push(init, last, label);
        lemma_labelled_push(rows, row, label);
        if last.label == label && row.label == label {
            lemma_text_le_total(label, label);
        }
    }
}

/// Sorting puts labels in order, keeps every row and keeps rows with equal labels in their order.
pub proof fn law_sorted(rows: Seq<SuggestionView>, label: Seq<char>)
    ensures
        is_sorted(sorted(rows)),
        sorted(rows).to_multiset() == rows.to_multiset(),
        labelled(sorted(rows), label) == labelled(rows, label),
        sorted(rows).len() == rows.len(),
    decreases rows.len(),
{
    broadcast use vstd::seq_lib::group_to_multiset_ensures;

    if rows.len() > 0 {
        let init = rows.drop_last();
        law_sorted(init, label);
        lemma_inserted(sorted(init), rows.last(), label);
        assert(rows =~= init.push(rows.last()));
        lemma_labelled_push(init, rows.last(), label);
        lemma_labelled_push(sorted(init), rows.last(), label);
    }
}

/// The completion list has at most twelve rows; agents come first, and only in a team; the files after
/// them are in order.
pub proof fn law_agents_come_first(
    v: ChatView,
    frag: Seq<char>,
    lower_agents: Seq<Seq<char>>,
    items: Seq<DirItemView>,
    lower_items: Seq<Seq<char>>,
)
    ensures
        ({
            let n = v.sessions.len() as int;
            let out = v.suggested(frag, lower_agents, items, lower_items);
            let agents = agent_rows(short_names(v.sessions), lower_agents, frag, n);
            let first = if v.team() {
                agents.len()
            } else {
                0
            };
            &&& out.len() <= 12
            &&& forall|k: int| 0 <= k < out.len() && k < first ==> #[trigger] out[k] == agents[k]
            &&& forall|k: int, l: int|
                first <= k <= l < out.len() ==> text_le(
                    (#[trigger] out[k]).label,
                    (#[trigger] out[l]).label,
                )
        }),
{
    let rows = file_rows(items, lower_items, frag, items.len() as int);
    law_sorted(rows, Seq::empty());
    let out = v.suggested(frag, lower_agents, items, lower_items);
    let agents = if v.team() {
        agent_rows(short_names(v.sessions), lower_agents, frag, v.sessions.len() as int)
    } else {
        Seq::empty()
    };
    let files = sorted(rows);
    assert forall|k: int| 0 <= k < out.len() implies #[trigger] out[k] == (agents + files)[k] by {}
    assert forall|k: int, l: int| agents.len() <= k <= l < out.len() implies text_le(
        (#[trigger] out[k]).label,
        (#[trigger] out[l]).label,
    ) by {
        assert(out[k] == files[k - agents.len()]);
        assert(out[l] == files[l - agents.len()]);
    }
}

/// The file rows are those of the entries that complete the input: every such entry has its row, and
/// every row is that of such an entry. Hidden entries have none.
pub proof fn law_files_complete_input(
    items: Seq<DirItemView>,
    lower: Seq<Seq<char>>,
    frag: Seq<char>,
    n: int,
    row: SuggestionView,
)
    requires
        0 <= n <= items.len(),
    ensures
        file_rows(items, lower, frag, n).contains(row) <==> exists|i: int|
            0 <= i < n && completes((#[trigger] items[i]).name, lower[i], frag) && row == file_row(
                items[i],
            ),
        forall|i: int|
            0 <= i < n ==> completes((#[trigger] items[i]).name, lower[i], frag) == (
            frag.is_prefix_of(lower[i]) && (items[i].name.len() == 0 || items[i].name[0] != '.')),
    decreases n,
{
    let out = file_rows(items, lower, frag, n);
    if n > 0 {
        law_files_complete_input(items, lower, frag, n - 1, row);
        let before = file_rows(items, lower, frag, n - 1);
        if completes(items[n - 1].name, lower[n - 1], frag) {
            let last = file_row(items[n - 1]);
            assert(out == before.push(last));
            if before.contains(row) {
                let k = choose|k: int| 0 <= k < before.len() && before[k] == row;
                assert(out[k] == row);
            }
            if row == last {
                assert(out[before.len() as int] == row);
            }
            if out.contains(row) {
                let k = choose|k: int| 0 <= k < out.len() && out[k] == row;
                if k < before.len() {
                    assert(before[k] == row);
                }
            }
        }
    }
}

/// What the rows show and insert: an agent its mention, which stays in the line; a directory its name
/// with a slash; a file its name with a space behind it.
pub proof fn law_rows(name: Seq<char>)
    ensures
        agent_row(name).label == "@"@ + name + "  (agent)"@,
        agent_row(name).insert == "@"@ + name + " "@,
        file_row(DirItemView { name, is_dir: true }).label == name + "/"@ + "  (file)"@,
        file_row(DirItemView { name, is_dir: true }).insert == name + "/"@,
        file_row(DirItemView { name, is_dir: false }).label == name + "  (file)"@,
        file_row(DirItemView { name, is_dir: false }).insert == name + " "@,
{
}

proof fn lemma_agent_rows(
    names: Seq<Seq<char>>,
    lower: Seq<Seq<char>>,
    frag: Seq<char>,
    n: int,
    f: spec_fn(int) -> Option<SuggestionView>,
)
    requires
        0 <= n,
        forall|i: int|
            0 <= i < n ==> #[trigger] f(i) == if frag.is_prefix_of(lower[i]) {
                Some(agent_row(names[i]))
            } else {
                None
            },
    ensures
        agent_rows(names, lower, frag, n) == positions(n).filter_map(f),
    decreases n,
{
    if n > 0 {
        lemma_agent_rows(names, lower, frag, n - 1, f);
        lemma_positions(n);
        let before = agent_rows(names, lower, frag, n - 1);
        assert(f(n - 1) == if frag.is_prefix_of(lower[n - 1]) {
            Some(agent_row(names[n - 1]))
        } else {
            None
        });
        assert(before.push(agent_row(names[n - 1])) =~= before + seq![agent_row(names[n - 1])]);
    }
}

proof fn lemma_file_rows(
    items: Seq<DirItemView>,
    lower: Seq<Seq<char>>,
    frag: Seq<char>,
    n: int,
    f: spec_fn(int) -> Option<SuggestionView>,
)
    requires
        0 <= n,
        forall|i: int|
            0 <= i < n ==> #[trigger] f(i) == if completes(items[i].name, lower[i], frag) {
                Some(file_row(items[i]))
            } else {
                None
            },
    ensures
        file_rows(items, lower, frag, n) == positions(n).filter_map(f),
    decreases n,
{
    if n > 0 {
        lemma_file_rows(items, lower, frag, n - 1, f);
        lemma_positions(n);
        let before = file_rows(items, lower, frag, n - 1);
        assert(f(n - 1) == if completes(items[n - 1].name, lower[n - 1], frag) {
            Some(file_row(items[n - 1]))
        } else {
            None
        });
        assert(before.push(file_row(items[n - 1])) =~= before + seq![file_row(items[n - 1])]);
    }
}

/// The completion list is the start of one long list: in a team, a row for each agent whose name in
/// lower case starts with what was typed, in the agents' order; then a row for each entry that is not
/// hidden and whose name in lower case starts with it, in the order of the labels. The list is as long
/// as that, but has twelve rows at most. `agent` and `file` are those rows by position.
pub proof fn law_completion_list(
    v: ChatView,
    frag: Seq<char>,
    lower_agents: Seq<Seq<char>>,
    items: Seq<DirItemView>,
    lower_items: Seq<Seq<char>>,
    agent: spec_fn(int) -> Option<SuggestionView>,
    file: spec_fn(int) -> Option<SuggestionView>,
)
    requires
        forall|i: int|
            0 <= i < v.sessions.len() ==> #[trigger] agent(i) == if frag.is_prefix_of(
                lower_agents[i],
            ) {
                Some(
                    SuggestionView {
                        label: "@"@ + short_name(v.sessions[i].id) + "  (agent)"@,
                        insert: "@"@ + short_name(v.sessions[i].id) + " "@,
                    },
                )
            } else {
                None
            },
        forall|i: int|
            0 <= i < items.len() ==> #[trigger] file(i) == if !frag.is_prefix_of(lower_items[i])
                || items[i].name.len() > 0 && items[i].name[0] == '.' {
                None
            } else if items[i].is_dir {
                Some(
                    SuggestionView {
                        label: items[i].name + "/"@ + "  (file)"@,
                        insert: items[i].name + "/"@,
                    },
                )
            } else {
                Some(
                    SuggestionView {
                        label: items[i].name + "  (file)"@,
                        insert: items[i].name + " "@,
                    },
                )
            },
    ensures
        ({
            let agents = positions(v.sessions.len() as int).filter_map(agent);
            let files = sorted(positions(items.len() as int).filter_map(file));
            let all = if v.sessions.len() > 1 {
                agents + files
            } else {
                files
            };
            let out = v.suggested(frag, lower_agents, items, lower_items);
            &&& all.len() <= 12 ==> out == all
            &&& all.len() > 12 ==> out.len() == 12 && out == all.take(12)
        }),
{
    let names = short_names(v.sessions);
    assert forall|i: int| 0 <= i < v.sessions.len() implies #[trigger] agent(i)
        == if frag.is_prefix_of(lower_agents[i]) {
        Some(agent_row(names[i]))
    } else {
        None
    } by {
        assert(names[i] == short_name(v.sessions[i].id));
    }
    lemma_agent_rows(names, lower_agents, frag, v.sessions.len() as int, agent);
    lemma_file_rows(items, lower_items, frag, items.len() as int, file);
    let files = sorted(positions(items.len() as int).filter_map(file));
    assert(Seq::<SuggestionView>::empty() + files =~= files);
}

/// Upper and lower case do not matter for completions: what was typed, the agents' short names and the
/// entries' names all count in lower case.
pub proof fn law_completions_ignore_case(
    v: ChatView,
    frag: Seq<char>,
    items: Seq<DirItemView>,
    other: Seq<char>,
)
    ensures
        v.at_suggestions(frag, items) == v.suggested(
            lowercase(frag),
            Seq::new(v.sessions.len(), |i: int| lowercase(short_name(v.sessions[i].id))),
            items,
            Seq::new(items.len(), |i: int| lowercase(items[i].name)),
        ),
        lowercase(frag) == lowercase(other) ==> v.at_suggestions(frag, items) == v.at_suggestions(
            other,
            items,
        ),
{
    assert(lowered(short_names(v.sessions)) =~= Seq::new(
        v.sessions.len(),
        |i: int| lowercase(short_name(v.sessions[i].id)),
    ));
    assert(lowered(item_names(items)) =~= Seq::new(
        items.len(),
        |i: int| lowercase(items[i].name),
    ));
}

/// A listing and a completion list mean what their fields hold.
pub proof fn law_rows_mean_their_fields(items: Seq<DirItem>, rows: Seq<Suggestion>, k: int)
    ensures
        listing_view(items).len() == items.len() && suggestions_view(rows).len() == rows.len(),
        0 <= k < items.len() ==> listing_view(items)[k].name == items[k].name@ && listing_view(
            items,
        )[k].is_dir == items[k].is_dir,
        0 <= k < rows.len() ==> suggestions_view(rows)[k].label == rows[k].label@
            && suggestions_view(rows)[k].insert == rows[k].insert@,
{
}

} // verus!
