//! The report of a comparison, as a table of the places that differ.
use vstd::prelude::*;
use crate::corpus::{ItemBody, ReportItem};
use crate::divergence::DivergenceMap;
use crate::json::json_quoted;
use crate::order::{rank, text_lt, Rank};
use crate::text::{
    append, append_str, chars_of, decimal, joined, push_decimal, same_text, string_of,
};

verus! {

/// The first line of the table.
pub const CSV_HEADER: &'static str = "File;JSON Path\n";

/// One line of the table: a document and the dotted key of a place in it.
pub struct Row {
    pub file: Seq<char>,
    pub path: Seq<char>,
}

/// The lines for one item: one for each divergence, in increasing order of
/// the keys; for two texts shown side by side, one line for the root.
pub open spec fn item_rows(item: ReportItem) -> Seq<Row> {
    match item.body {
        ItemBody::Divergences(map) => Seq::new(
            map.entries@.len(),
            |i: int| Row { file: item.file@, path: map.entries@[i].path@ },
        ),
        ItemBody::Panes { .. } => seq![Row { file: item.file@, path: Seq::empty() }],
    }
}

/// The lines for the items, item after item.
pub open spec fn csv_rows(items: Seq<ReportItem>) -> Seq<Row>
    decreases items.len(),
{
    if items.len() == 0 {
        Seq::empty()
    } else {
        csv_rows(items.drop_last()) + item_rows(items.last())
    }
}

/// One line as text: the document, a semicolon, the key, a line break.
pub open spec fn row_text(row: Row) -> Seq<char> {
    row.file + seq![';'] + row.path + seq!['\n']
}

/// The lines as text, one after the other.
pub open spec fn rows_text(rows: Seq<Row>) -> Seq<char>
    decreases rows.len(),
{
    if rows.len() == 0 {
        Seq::empty()
    } else {
        rows_text(rows.drop_last()) + row_text(rows.last())
    }
}

/// The table as text: the header and the lines.
pub open spec fn csv_text(rows: Seq<Row>) -> Seq<char> {
    CSV_HEADER@ + rows_text(rows)
}

/// How many divergences an item stands for.
pub open spec fn divergence_count(item: ReportItem) -> nat {
    match item.body {
        ItemBody::Divergences(map) => map@.dom().len(),
        ItemBody::Panes { .. } => 1,
    }
}

/// How many divergences the items stand for together.
pub open spec fn total_divergences(items: Seq<ReportItem>) -> nat
    decreases items.len(),
{
    if items.len() == 0 {
        0
    } else {
        total_divergences(items.drop_last()) + divergence_count(items.last())
    }
}

/// Whether a line names a divergence that item `i` records.
pub open spec fn row_recorded_at(items: Seq<ReportItem>, row: Row, i: int) -> bool {
    &&& 0 <= i < items.len()
    &&& items[i].file@ == row.file
    &&& match items[i].body {
        ItemBody::Divergences(map) => map@.contains_key(row.path),
        ItemBody::Panes { .. } => row.path == Seq::<char>::empty(),
    }
}

/// Whether a line names a divergence that one of the items records.
pub open spec fn row_recorded(items: Seq<ReportItem>, row: Row) -> bool {
    exists|i: int| row_recorded_at(items, row, i)
}

/// The table is complete and holds nothing else: every line names a
/// divergence that an item records, and there are as many lines as the
/// items record divergences.
pub proof fn lemma_csv_complete(items: Seq<ReportItem>)
    requires
        forall|i: int| 0 <= i < items.len() ==> (#[trigger] items[i]).body.wf(),
    ensures
        csv_rows(items).len() == total_divergences(items),
        forall|k: int|
            0 <= k < csv_rows(items).len() ==> row_recorded(items, #[trigger] csv_rows(items)[k]),
    decreases items.len(),
{
    if items.len() > 0 {
        let front = items.drop_last();
        let last = items.last();
        lemma_csv_complete(front);
        let rows = csv_rows(items);
        match last.body {
            ItemBody::Divergences(map) => {
                assert(last.body.wf());
                map.lemma_size();
            },
            ItemBody::Panes { .. } => {},
        }
        assert forall|k: int| 0 <= k < rows.len() implies row_recorded(
            items,
            #[trigger] rows[k],
        ) by {
            let n = csv_rows(front).len();
            if k < n {
                assert(rows[k] == csv_rows(front)[k]);
                let i = choose|i: int| row_recorded_at(front, rows[k], i);
                assert(front[i] == items[i]);
                assert(row_recorded_at(items, rows[k], i));
            } else {
                assert(rows[k] == item_rows(last)[k - n]);
                match last.body {
                    ItemBody::Divergences(map) => {
                        map.lemma_entry(k - n);
                    },
                    ItemBody::Panes { .. } => {},
                }
                assert(row_recorded_at(items, rows[k], items.len() - 1));
            }
        }
    }
}

/// Where the character first stands in the text; the length of the text
/// where it does not occur.
pub open spec fn position_of(s: Seq<char>, c: char) -> int
    decreases s.len(),
{
    if s.len() == 0 || s[0] == c {
        0
    } else {
        1 + position_of(s.skip(1), c)
    }
}

/// The text of a line up to its first semicolon, and what follows the
/// semicolon up to the line break that ends the line.
pub open spec fn parsed_row(line: Seq<char>) -> Row {
    let at = position_of(line, ';');
    Row { file: line.take(at), path: line.subrange(at + 1, line.len() - 1) }
}

proof fn lemma_position_of(s: Seq<char>, c: char, n: int)
    requires
        0 <= n < s.len(),
        s[n] == c,
        forall|i: int| 0 <= i < n ==> s[i] != c,
    ensures
        position_of(s, c) == n,
    decreases n,
{
    if n > 0 {
        let rest = s.skip(1);
        assert(rest[n - 1] == s[n]);
        assert forall|i: int| 0 <= i < n - 1 implies rest[i] != c by {
            assert(rest[i] == s[i + 1]);
        }
        lemma_position_of(rest, c, n - 1);
    }
}

/// A line is read back as the document and the key that it was written
/// for, where the path of the document holds no semicolon.
pub proof fn lemma_row_parses(row: Row)
    requires
        !row.file.contains(';'),
    ensures
        parsed_row(row_text(row)) == row,
{
    let line = row_text(row);
    let n = row.file.len() as int;
    assert(line[n] == ';');
    assert forall|i: int| 0 <= i < n implies line[i] != ';' by {
        assert(line[i] == row.file[i]);
    }
    lemma_position_of(line, ';', n);
    assert(line.take(n) =~= row.file);
    assert(line.subrange(n + 1, line.len() - 1) =~= row.path);
}

/// Writing one more line writes its text behind the others.
pub proof fn lemma_rows_text_push(rows: Seq<Row>, row: Row)
    ensures
        rows_text(rows.push(row)) == rows_text(rows) + row_text(row),
{
    assert(rows.push(row).drop_last() == rows);
}

/// The table of the places that differ: a header, then one line for each
/// divergence of each item, with the path of the document and the dotted
/// key of the place.
pub fn to_csv(items: &Vec<ReportItem>) -> (out: String)
    ensures
        out@ == csv_text(csv_rows(items@)),
{
    let mut out: Vec<char> = Vec::new();
    append_str(&mut out, CSV_HEADER);
    let mut k: usize = 0;
    proof {
        assert(items@.take(0) == Seq::<ReportItem>::empty());
        assert(out@ == CSV_HEADER@ + Seq::<char>::empty());
    }
    while k < items.len()
        invariant
            k <= items.len(),
            out@ == CSV_HEADER@ + rows_text(csv_rows(items@.take(k as int))),
        decreases items.len() - k,
    {
        let ghost done = csv_rows(items@.take(k as int));
        let ghost rows = item_rows(items@[k as int]);
        let file = chars_of(items[k].file.as_str());
        proof {
            assert(items@.take(k + 1).drop_last() == items@.take(k as int));
            assert(items@.take(k + 1).last() == items@[k as int]);
            assert(csv_rows(items@.take(k + 1)) == done + rows);
            assert(done + rows.take(0) == done);
        }
        match &items[k].body {
            ItemBody::Divergences(map) => {
                let mut m: usize = 0;
                while m < map.entries.len()
                    invariant
                        m <= map.entries@.len(),
                        k < items.len(),
                        items@[k as int].body == ItemBody::Divergences(*map),
                        file@ == items@[k as int].file@,
                        rows == item_rows(items@[k as int]),
                        out@ == CSV_HEADER@ + rows_text(done + rows.take(m as int)),
                    decreases map.entries@.len() - m,
                {
                    let ghost row = rows[m as int];
                    let ghost before = out@;
                    append(&mut out, &file);
                    out.push(';');
                    append_str(&mut out, map.entries[m].path.as_str());
                    out.push('\n');
                    proof {
                        assert(row == Row { file: file@, path: map.entries@[m as int].path@ });
                        assert(out@ == before + row_text(row));
                        assert((done + rows.take(m as int)).push(row) == done + rows.take(m + 1));
                        lemma_rows_text_push(done + rows.take(m as int), row);
                    }
                    m = m + 1;
                }
                proof {
                    assert(rows.take(rows.len() as int) == rows);
                }
            },
            ItemBody::Panes { .. } => {
                let ghost row = Row { file: file@, path: Seq::empty() };
                let ghost before = out@;
                append(&mut out, &file);
                out.push(';');
                out.push('\n');
                proof {
                    assert(rows == seq![row]);
                    assert(out@ == before + row_text(row));
                    assert(done.push(row) == done + rows);
                    lemma_rows_text_push(done, row);
                }
            },
        }
        k = k + 1;
    }
    proof {
        assert(items@.take(items@.len() as int) == items@);
    }
    string_of(&out)
}

/// The divergences of a document as indented JSON: an object with one
/// member for each dotted key, two spaces deep, in increasing order of the
/// keys.
pub open spec fn pretty_members(map: DivergenceMap) -> Seq<Seq<char>> {
    Seq::new(
        map.entries@.len(),
        |i: int|
            "\n  "@ + json_quoted(map.entries@[i].path@) + ": "@ + json_quoted(
                map.entries@[i].text@,
            ),
    )
}

/// The divergences of a document as indented JSON.
pub open spec fn pretty_map(map: DivergenceMap) -> Seq<char> {
    if map.entries@.len() == 0 {
        "{}"@
    } else {
        "{"@ + joined(pretty_members(map), ","@) + "\n}"@
    }
}

/// Writes the divergences of a document as indented JSON, by the pretty
/// serializer of `serde_json`, which is handed the entries as a map with
/// `Serializer::collect_map`. Claimed, as the serializer and its formatter
/// show: a map without entries is written as `{}`; any other as an opening
/// brace, the entries in their order with a comma between them, each on a
/// line of its own behind two spaces, as the key and the text as JSON
/// strings with a colon and a space between them, and then a line break and
/// the closing brace.
#[verifier::external_body]
fn pretty(map: &DivergenceMap) -> (out: String)
    ensures
        out@ == pretty_map(*map),
{
    let mut bytes = Vec::new();
    let mut writer = serde_json::Serializer::pretty(&mut bytes);
    let entries = map.entries.iter().map(|entry| (entry.path.as_str(), entry.text.as_str()));
    serde::Serializer::collect_map(&mut writer, entries).ok();
    String::from_utf8(bytes).unwrap_or_default()
}

/// Appends the divergences of a document as indented JSON.
pub fn write_pretty_map(out: &mut Vec<char>, map: &DivergenceMap)
    ensures
        final(out)@ == old(out)@ + pretty_map(*map),
{
    let text = pretty(map);
    append_str(out, text.as_str());
}

/// How the entry of a document begins in the list of a group.
pub const ITEM_OPEN: &'static str = "<li><span>";

/// Between the path of a document and its divergences.
pub const MAP_OPEN: &'static str = "</span><div class=\"r\"><pre><code>";

/// Behind the divergences of a document.
pub const MAP_CLOSE: &'static str = "</code></pre></div></li>";

/// Between the path of a document and the first of its two texts.
pub const LEFT_OPEN: &'static str = "</span><div class=\"a\">";

/// Between the two texts of a document.
pub const RIGHT_OPEN: &'static str = "</div><div class=\"b\">";

/// Behind the two texts of a document.
pub const PANES_CLOSE: &'static str = "</div></li>";

/// The entry of one item in the list of its group: the path of the
/// document, then its divergences as indented JSON or its two texts side
/// by side.
pub open spec fn item_markup(item: ReportItem) -> Seq<char> {
    match item.body {
        ItemBody::Divergences(map) => ITEM_OPEN@ + item.file@ + MAP_OPEN@ + pretty_map(map)
            + MAP_CLOSE@,
        ItemBody::Panes { left, right } => ITEM_OPEN@ + item.file@ + LEFT_OPEN@ + left@
            + RIGHT_OPEN@ + right@ + PANES_CLOSE@,
    }
}

/// Writes the entry of one item.
pub fn render_item(item: &ReportItem) -> (out: String)
    ensures
        out@ == item_markup(*item),
{
    let mut out: Vec<char> = Vec::new();
    append_str(&mut out, ITEM_OPEN);
    append_str(&mut out, item.file.as_str());
    proof {
        assert(out@ == ITEM_OPEN@ + item.file@);
    }
    match &item.body {
        ItemBody::Divergences(map) => {
            append_str(&mut out, MAP_OPEN);
            write_pretty_map(&mut out, map);
            append_str(&mut out, MAP_CLOSE);
        },
        ItemBody::Panes { left, right } => {
            append_str(&mut out, LEFT_OPEN);
            append_str(&mut out, left.as_str());
            append_str(&mut out, RIGHT_OPEN);
            append_str(&mut out, right.as_str());
            append_str(&mut out, PANES_CLOSE);
        },
    }
    string_of(&out)
}

/// The part of a path before its first slash.
pub open spec fn head(path: Seq<char>) -> Seq<char> {
    path.take(position_of(path, '/'))
}

/// The part of a path behind its first slash, if it has one.
pub open spec fn tail(path: Seq<char>) -> Option<Seq<char>> {
    if position_of(path, '/') < path.len() {
        Some(path.skip(position_of(path, '/') + 1))
    } else {
        None
    }
}

/// The category that a document is listed under, by the first folders of
/// its path: below `docs/web/` the folder after that, below `docs/` the
/// folder after that, and the first folder elsewhere.
pub open spec fn category(path: Seq<char>) -> Seq<char> {
    match tail(path) {
        Some(below) => if head(path) == "docs"@ {
            match tail(below) {
                Some(deeper) => if head(below) == "web"@ {
                    "docs/web/"@ + head(deeper)
                } else {
                    "docs/"@ + head(below)
                },
                None => "docs/"@ + head(below),
            }
        } else {
            head(path)
        },
        None => head(path),
    }
}

/// The position where the part that begins at `from` ends.
fn part_end(path: &Vec<char>, from: usize) -> (end: usize)
    requires
        from <= path.len(),
    ensures
        from <= end <= path.len(),
        end == from + position_of(path@.skip(from as int), '/'),
{
    let mut end = from;
    while end < path.len() && path[end] != '/'
        invariant
            from <= end <= path.len(),
            position_of(path@.skip(from as int), '/') == (end - from) + position_of(
                path@.skip(end as int),
                '/',
            ),
        decreases path.len() - end,
    {
        proof {
            let rest = path@.skip(end as int);
            assert(rest[0] == path@[end as int]);
            assert(rest.skip(1) == path@.skip(end + 1));
        }
        end = end + 1;
    }
    proof {
        let rest = path@.skip(end as int);
        if end < path.len() {
            assert(rest[0] == path@[end as int]);
        }
    }
    end
}

/// The characters of `path` from `from` up to `to`.
fn part(path: &Vec<char>, from: usize, to: usize) -> (out: Vec<char>)
    requires
        from <= to <= path.len(),
    ensures
        out@ == path@.subrange(from as int, to as int),
{
    let mut out: Vec<char> = Vec::new();
    let mut i = from;
    while i < to
        invariant
            from <= i <= to <= path.len(),
            out@ == path@.subrange(from as int, i as int),
        decreases to - i,
    {
        out.push(path[i]);
        proof {
            assert(path@.subrange(from as int, i + 1) == path@.subrange(from as int, i as int).push(
                path@[i as int],
            ));
        }
        i = i + 1;
    }
    out
}

/// The category that a document is listed under.
pub fn category_of(path: &str) -> (out: String)
    ensures
        out@ == category(path@),
{
    let chars = chars_of(path);
    let first_end = part_end(&chars, 0);
    let first = part(&chars, 0, first_end);
    proof {
        assert(chars@.skip(0) == chars@);
        assert(chars@.subrange(0, first_end as int) == head(chars@));
    }
    if first_end == chars.len() || !same_text(&first, &chars_of("docs")) {
        return string_of(&first);
    }
    let ghost below = chars@.skip(first_end + 1);
    let second_end = part_end(&chars, first_end + 1);
    let second = part(&chars, first_end + 1, second_end);
    proof {
        assert(tail(chars@) == Some(below));
        assert(chars@.subrange(first_end + 1, second_end as int) =~= head(below));
    }
    let mut out: Vec<char> = Vec::new();
    if second_end == chars.len() || !same_text(&second, &chars_of("web")) {
        append_str(&mut out, "docs/");
        append(&mut out, &second);
        proof {
            assert(out@ == "docs/"@ + head(below));
        }
        return string_of(&out);
    }
    let ghost deeper = chars@.skip(second_end + 1);
    let third_end = part_end(&chars, second_end + 1);
    let third = part(&chars, second_end + 1, third_end);
    proof {
        assert(below.skip(second_end - first_end) =~= deeper);
        assert(tail(below) == Some(deeper));
        assert(chars@.subrange(second_end + 1, third_end as int) =~= head(deeper));
    }
    append_str(&mut out, "docs/web/");
    append(&mut out, &third);
    proof {
        assert(out@ == "docs/web/"@ + head(deeper));
    }
    string_of(&out)
}

/// The documents of one category that differ.
pub struct Group {
    pub category: String,
    /// The entry of each document, in the order in which they were found.
    pub items: Vec<String>,
}

/// The mathematical value of a [`Group`].
pub struct GroupView {
    pub category: Seq<char>,
    pub items: Seq<Seq<char>>,
}

impl View for Group {
    type V = GroupView;

    open spec fn view(&self) -> GroupView {
        GroupView {
            category: self.category@,
            items: Seq::new(self.items@.len(), |i: int| self.items@[i]@),
        }
    }
}

/// The groups of a list, as mathematical values.
pub open spec fn groups_view(groups: Seq<Group>) -> Seq<GroupView> {
    Seq::new(groups.len(), |i: int| groups[i]@)
}

/// The groups with one more entry: in the group of its category where
/// there is one, in a new group otherwise, which takes its place in the
/// order of the categories.
pub open spec fn placed(groups: Seq<GroupView>, category: Seq<char>, entry: Seq<char>) -> Seq<
    GroupView,
>
    decreases groups.len(),
{
    if groups.len() == 0 {
        seq![GroupView { category, items: seq![entry] }]
    } else if groups.last().category == category {
        groups.drop_last().push(GroupView { category, items: groups.last().items.push(entry) })
    } else if text_lt(groups.last().category, category) {
        groups.push(GroupView { category, items: seq![entry] })
    } else {
        placed(groups.drop_last(), category, entry).push(groups.last())
    }
}

/// The items sorted into groups by category; in a group they keep their
/// order.
pub open spec fn grouped(items: Seq<ReportItem>) -> Seq<GroupView>
    decreases items.len(),
{
    if items.len() == 0 {
        Seq::empty()
    } else {
        placed(grouped(items.drop_last()), category(items.last().file@), item_markup(items.last()))
    }
}

/// Puts one entry into the groups.
pub fn place(groups: &mut Vec<Group>, category: String, entry: String)
    ensures
        groups_view(final(groups)@) == placed(groups_view(old(groups)@), category@, entry@),
{
    let ghost before = groups_view(groups@);
    let wanted = chars_of(category.as_str());
    let mut k: usize = groups.len();
    let mut found = false;
    proof {
        assert(before.take(before.len() as int) == before);
        assert(before.skip(before.len() as int) == Seq::<GroupView>::empty());
        assert(placed(before, category@, entry@) + Seq::<GroupView>::empty() == placed(
            before,
            category@,
            entry@,
        ));
    }
    while k > 0
        invariant_except_break
            !found,
        invariant
            *groups == *old(groups),
            before == groups_view(groups@),
            wanted@ == category@,
            k <= groups@.len(),
            placed(before, category@, entry@) == placed(before.take(k as int), category@, entry@)
                + before.skip(k as int),
        ensures
            found ==> k > 0 && before[k - 1].category == category@,
            !found && k > 0 ==> before[k - 1].category != category@ && text_lt(
                before[k - 1].category,
                category@,
            ),
        decreases k,
    {
        let here = chars_of(groups[k - 1].category.as_str());
        proof {
            assert(before[k - 1] == groups@[k - 1]@);
            assert(before.take(k as int).last() == before[k - 1]);
        }
        match rank(&here, &wanted) {
            Rank::Same => {
                found = true;
                break ;
            },
            Rank::Before => {
                break ;
            },
            Rank::After => {
                proof {
                    let head = before.take(k as int);
                    assert(head.drop_last() == before.take(k - 1));
                    assert(before.skip(k - 1) == seq![before[k - 1]] + before.skip(k as int));
                    assert(placed(before.take(k - 1), category@, entry@).push(before[k - 1])
                        + before.skip(k as int) == placed(before.take(k - 1), category@, entry@)
                        + before.skip(k - 1));
                }
                k = k - 1;
            },
        }
    }
    proof {
        let head = before.take(k as int);
        if k > 0 {
            assert(head.last() == before[k - 1]);
            assert(head.drop_last() == before.take(k - 1));
        }
    }
    if found {
        let mut group = groups.remove(k - 1);
        let ghost old_group = group@;
        group.items.push(entry);
        proof {
            assert(group@.items =~= old_group.items.push(entry@));
            assert(group@.category == category@);
        }
        groups.insert(k - 1, group);
        proof {
            assert(groups_view(groups@) =~= before.take(k - 1).push(
                GroupView { category: category@, items: old_group.items.push(entry@) },
            ) + before.skip(k as int));
        }
    } else {
        let mut items: Vec<String> = Vec::new();
        items.push(entry);
        let group = Group { category, items };
        proof {
            assert(group@.items =~= seq![entry@]);
        }
        groups.insert(k, group);
        proof {
            assert(groups_view(groups@) =~= before.take(k as int).push(
                GroupView { category: category@, items: seq![entry@] },
            ) + before.skip(k as int));
        }
    }
}

/// Sorts the items into groups by category.
pub fn group_items(items: &Vec<ReportItem>) -> (groups: Vec<Group>)
    ensures
        groups_view(groups@) == grouped(items@),
{
    let mut groups: Vec<Group> = Vec::new();
    let mut i: usize = 0;
    proof {
        assert(items@.take(0) == Seq::<ReportItem>::empty());
        assert(groups_view(groups@) =~= Seq::<GroupView>::empty());
    }
    while i < items.len()
        invariant
            i <= items.len(),
            groups_view(groups@) == grouped(items@.take(i as int)),
        decreases items.len() - i,
    {
        proof {
            assert(items@.take(i + 1).drop_last() == items@.take(i as int));
            assert(items@.take(i + 1).last() == items@[i as int]);
        }
        let category = category_of(items[i].file.as_str());
        let entry = render_item(&items[i]);
        place(&mut groups, category, entry);
        i = i + 1;
    }
    proof {
        assert(items@.take(items@.len() as int) == items@);
    }
    groups
}

/// The texts written one after the other.
pub open spec fn concat(parts: Seq<Seq<char>>) -> Seq<char>
    decreases parts.len(),
{
    if parts.len() == 0 {
        Seq::empty()
    } else {
        concat(parts.drop_last()) + parts.last()
    }
}

/// How the entry of a group begins.
pub const GROUP_OPEN: &'static str = "<li><details><summary>[";

/// Between the number of documents of a group and its category.
pub const GROUP_NAME: &'static str = "] ";

/// Between the category of a group and the entries of its documents.
pub const GROUP_LIST: &'static str = "</summary><ul>";

/// Behind the entries of the documents of a group.
pub const GROUP_CLOSE: &'static str = "</ul></details></li>";

/// The entry of a group: a folding section headed by the number of its
/// documents and its category, which holds the entries of the documents.
pub open spec fn group_markup(group: GroupView) -> Seq<char> {
    GROUP_OPEN@ + decimal(group.items.len()) + GROUP_NAME@ + group.category + GROUP_LIST@
        + concat(group.items) + GROUP_CLOSE@
}

/// The entries of the groups, one after the other.
pub open spec fn groups_markup(groups: Seq<GroupView>) -> Seq<char>
    decreases groups.len(),
{
    if groups.len() == 0 {
        Seq::empty()
    } else {
        groups_markup(groups.drop_last()) + group_markup(groups.last())
    }
}

/// Appends the entry of a group.
pub fn write_group(out: &mut Vec<char>, group: &Group)
    ensures
        final(out)@ == old(out)@ + group_markup(group@),
{
    let ghost parts = group@.items;
    append_str(out, GROUP_OPEN);
    push_decimal(out, group.items.len());
    append_str(out, GROUP_NAME);
    append_str(out, group.category.as_str());
    append_str(out, GROUP_LIST);
    let ghost start = out@;
    let mut i: usize = 0;
    proof {
        assert(parts.take(0) == Seq::<Seq<char>>::empty());
        assert(start + Seq::<char>::empty() == start);
    }
    while i < group.items.len()
        invariant
            i <= group.items@.len(),
            parts == group@.items,
            out@ == start + concat(parts.take(i as int)),
        decreases group.items@.len() - i,
    {
        append_str(out, group.items[i].as_str());
        proof {
            assert(parts.take(i + 1).drop_last() == parts.take(i as int));
            assert(parts.take(i + 1).last() == group.items@[i as int]@);
            assert(start + concat(parts.take(i as int)) + parts[i as int] == start + (concat(
                parts.take(i as int),
            ) + parts[i as int]));
        }
        i = i + 1;
    }
    append_str(out, GROUP_CLOSE);
    proof {
        assert(parts.take(parts.len() as int) == parts);
        assert(out@ == old(out)@ + (GROUP_OPEN@ + decimal(group@.items.len()) + GROUP_NAME@
            + group@.category + GROUP_LIST@ + concat(parts) + GROUP_CLOSE@));
    }
}

/// What stands before the list of groups in the page of a report.
pub const PAGE_HEAD: &'static str =
    "<!doctype html>\n<html lang=\"en\" prefix=\"og: https://ogp.me/ns#\">\n\n<head>\n    <meta charset=\"utf-8\" />\n    <meta name=\"viewport\" content=\"width=device-width, initial-scale=1\" />\n    <style>\n        body > ul {\n            & > li {\n                list-style: none;\n            }\n        ul {\n            display: flex;\n            flex-direction: column;\n            & li {\n                margin: 1rem;\n                border: 1px solid gray;\n                list-style: none;\n                display: grid;\n                grid-template-areas: \"h h\" \"a b\" \"r r\";\n                grid-auto-columns: 1fr 1fr;\n                & > span {\n                    padding: .5rem;\n                    background-color: lightgray;\n                    grid-area: h;\n                }\n                & > div {\n                    padding: .5rem;\n                    &.a {\n                        grid-area: a;\n                    }\n                    &.b {\n                        grid-area: b;\n                    }\n                    &.r {\n                        grid-area: r;\n                    }\n\n                    & > pre {\n                        text-wrap: wrap;\n                    }\n                }\n            }\n        }\n        }\n    </style>\n</head>\n<body>\n<ul>\n";

/// What stands behind the list of groups in the page of a report.
pub const PAGE_TAIL: &'static str = "\n</ul>\n</body>\n</html>\n";

/// The page of a report around the given list of groups.
pub open spec fn page(body: Seq<char>) -> Seq<char> {
    PAGE_HEAD@ + body + PAGE_TAIL@
}

/// The page of a report around the given list of groups: a document of its
/// own, with its styles in it.
pub fn html(body: &str) -> (out: String)
    ensures
        out@ == page(body@),
{
    let mut out: Vec<char> = Vec::new();
    append_str(&mut out, PAGE_HEAD);
    append_str(&mut out, body);
    append_str(&mut out, PAGE_TAIL);
    string_of(&out)
}

/// The report as a page: the documents that differ, sorted into folding
/// groups by category, each with its divergences or its two texts.
pub fn to_html(items: &Vec<ReportItem>) -> (out: String)
    ensures
        out@ == page(groups_markup(grouped(items@))),
{
    let groups = group_items(items);
    let ghost views = groups_view(groups@);
    let mut body: Vec<char> = Vec::new();
    let mut i: usize = 0;
    proof {
        assert(views.take(0) == Seq::<GroupView>::empty());
    }
    while i < groups.len()
        invariant
            i <= groups.len(),
            views == groups_view(groups@),
            body@ == groups_markup(views.take(i as int)),
        decreases groups.len() - i,
    {
        proof {
            assert(views.take(i + 1).drop_last() == views.take(i as int));
            assert(views.take(i + 1).last() == groups@[i as int]@);
        }
        write_group(&mut body, &groups[i]);
        i = i + 1;
    }
    proof {
        assert(views.take(views.len() as int) == views);
    }
    let text = string_of(&body);
    html(text.as_str())
}

} // verus!
