//! The picker's own state: its columns, the query typed so far, the cursor
//! over the matched items, and the generation that background producers
//! are pinned to.
use vstd::prelude::*;
use std::sync::atomic::{AtomicUsize, Ordering};
use std::sync::Arc;
use crate::object::Direction;
use crate::query::{starts_with, parse, PickerQuery, names, parse_spec, keys_distinct, lookup, same_query, QueryModel};

verus! {

/// Smallest area width at which the preview panel is shown beside the list.
pub const MIN_AREA_WIDTH_FOR_PREVIEW: u16 = 72;

/// A picker with more items than this is dropped on close instead of being
/// kept for reopening.
pub const MAX_ITEMS_TO_KEEP: u32 = 100_000;

/// Rows taken by the border, the prompt and the separator.
pub const CHROME_HEIGHT: u16 = 4;

/// Where the cursor lands after moving `amount` rows in `direction` over
/// `len` matched items, wrapping at both ends.
pub open spec fn moved_cursor(cursor: u32, amount: u32, direction: Direction, len: u32) -> u32 {
    if len == 0 {
        cursor
    } else {
        match direction {
            Direction::Forward => ((cursor + amount) % (len as int)) as u32,
            Direction::Backward => ((cursor + len - amount) % (len as int)) as u32,
        }
    }
}

/// The cursor after each move of `moves` in turn over `len` matched items.
pub open spec fn cursor_after(cursor: u32, moves: Seq<(u32, Direction)>, len: u32) -> u32
    decreases moves.len(),
{
    if moves.len() == 0 {
        cursor
    } else {
        let prev = cursor_after(cursor, moves.drop_last(), len);
        moved_cursor(prev, moves.last().0, moves.last().1, len)
    }
}

/// Any sequence of moves over `len` matched items leaves a cursor that starts
/// in `0..max(1, len)` there: `0 <= cursor < max(1, len)`.
pub proof fn lemma_moves_keep_cursor_in_range(cursor: u32, moves: Seq<(u32, Direction)>, len: u32)
    requires
        cursor < if len == 0 { 1 } else { len as int },
    ensures
        cursor_after(cursor, moves, len) < if len == 0 { 1 } else { len as int },
    decreases moves.len(),
{
    if moves.len() > 0 {
        lemma_moves_keep_cursor_in_range(cursor, moves.drop_last(), len);
    }
}

/// Moving `amount` rows forward and then `amount` rows back over the same
/// `len` matched items puts the cursor back where it was.
pub proof fn lemma_forward_then_backward(cursor: u32, amount: u32, len: u32)
    requires
        cursor < if len == 0 { 1 } else { len as int },
    ensures
        moved_cursor(moved_cursor(cursor, amount, Direction::Forward, len), amount, Direction::Backward, len) == cursor,
{
    if len > 0 {
        let l = len as int;
        let f = (cursor + amount) % l;
        assert(moved_cursor(cursor, amount, Direction::Forward, len) == f);
        vstd::arithmetic::div_mod::lemma_add_mod_noop(cursor + amount, l - amount, l);
        vstd::arithmetic::div_mod::lemma_mod_twice(l - amount, l);
        vstd::arithmetic::div_mod::lemma_mod_twice(cursor + amount, l);
        vstd::arithmetic::div_mod::lemma_add_mod_noop(f, l - amount, l);
        assert((cursor + amount + (l - amount)) == cursor + l);
        vstd::arithmetic::div_mod::lemma_mod_add_multiples_vanish(cursor as int, l);
        vstd::arithmetic::div_mod::lemma_small_mod(cursor as nat, l as nat);
    }
}

/// The first row of the page that holds the cursor, for pages of `rows` rows.
pub open spec fn page_start(cursor: u32, rows: u32) -> u32 {
    if rows == 0 {
        cursor
    } else {
        (cursor - cursor % rows) as u32
    }
}

/// A column: its name, and whether its text takes part in matching.
pub struct Column {
    pub name: String,
    pub filter: bool,
}

impl Column {
    /// A column that takes part in matching.
    pub fn new(name: String) -> (r: Column)
        ensures
            r.name@ == name@,
            r.filter,
    {
        Column { name, filter: true }
    }

    /// The same column, shown but left out of matching.
    pub fn without_filtering(self) -> (r: Column)
        ensures
            r.name@ == self.name@,
            !r.filter,
    {
        Column { name: self.name, filter: false }
    }
}

/// The number of columns that take part in matching.
pub open spec fn filtered_count(columns: Seq<Column>) -> nat
    decreases columns.len(),
{
    if columns.len() == 0 {
        0
    } else {
        filtered_count(columns.drop_last()) + if columns.last().filter { 1nat } else { 0nat }
    }
}

proof fn lemma_filtered_count_bound(columns: Seq<Column>)
    ensures
        filtered_count(columns) <= columns.len(),
    decreases columns.len(),
{
    if columns.len() > 0 {
        lemma_filtered_count_bound(columns.drop_last());
    }
}

/// Counts the columns that take part in matching.
pub fn matcher_column_count(columns: &Vec<Column>) -> (r: u32)
    requires
        columns.len() <= u32::MAX,
    ensures
        r == filtered_count(columns@),
{
    let mut count: u32 = 0;
    let mut i: usize = 0;
    while i < columns.len()
        invariant
            i <= columns.len() <= u32::MAX,
            count == filtered_count(columns@.take(i as int)),
        decreases columns.len() - i,
    {
        proof {
            assert(columns@.take(i + 1).drop_last() =~= columns@.take(i as int));
            lemma_filtered_count_bound(columns@.take(i as int));
        }
        if columns[i].filter {
            count = count + 1;
        }
        i = i + 1;
    }
    proof {
        assert(columns@.take(i as int) =~= columns@);
    }
    count
}

/// The error a producer gets once the picker it feeds has moved on.
#[derive(Clone, Copy, PartialEq, Eq, Debug, Structural)]
pub struct InjectorShutdown;

impl InjectorShutdown {
    /// The message that describes this error.
    pub fn message(&self) -> (r: &'static str)
        ensures
            r@ == "picker has been shut down"@,
    {
        "picker has been shut down"
    }
}

/// A producer pinned to `captured` may push while the picker is at `current`.
pub open spec fn admits(captured: usize, current: usize) -> bool {
    captured == current
}

/// The generation after `g`; the counter wraps.
pub open spec fn next_generation(g: usize) -> usize {
    if g == usize::MAX { 0 } else { (g + 1) as usize }
}

/// Refuses a push from a producer pinned to an earlier generation.
pub fn check_generation(captured: usize, current: usize) -> (r: Result<(), InjectorShutdown>)
    ensures
        r is Ok <==> admits(captured, current),
{
    if captured != current {
        Err(InjectorShutdown)
    } else {
        Ok(())
    }
}

/// Once the picker moves on from a generation, a producer pinned to it is
/// refused: `check_generation(g, next(g))` is an error for every `g`.
pub proof fn lemma_advanced_generation_refuses(g: usize)
    ensures
        !admits(g, next_generation(g)),
{
}

/// The generation counter shared by a picker and its producers.
pub struct Generation {
    counter: Arc<AtomicUsize>,
}

impl Generation {
    /// A counter at zero.
    pub fn new() -> (r: Generation) {
        Generation { counter: Arc::new(AtomicUsize::new(0)) }
    }

    /// The current value; producers on other threads may see it late.
    pub fn current(&self) -> usize {
        self.counter.load(Ordering::Relaxed)
    }

    /// Moves to the next generation, shutting out every producer pinned to an
    /// earlier one.
    pub fn advance(&self) {
        self.counter.fetch_add(1, Ordering::Relaxed);
    }

    /// Another handle on the same counter.
    pub fn share(&self) -> Generation {
        Generation { counter: Arc::clone(&self.counter) }
    }
}

/// The part of a producer handle that decides whether it may still push.
pub struct Injector {
    pub version: usize,
    pub generation: Generation,
}

impl Injector {
    /// A handle pinned to the generation current now.
    pub fn pinned(generation: Generation) -> (r: Injector) {
        let version = generation.current();
        Injector { version, generation }
    }

    /// Another handle pinned to the same generation.
    pub fn share(&self) -> (r: Injector)
        ensures
            r.version == self.version,
    {
        Injector { version: self.version, generation: self.generation.share() }
    }

    /// Whether a push may go ahead: an error once the picker has moved to
    /// another generation.
    pub fn push(&self) -> (r: Result<(), InjectorShutdown>) {
        check_generation(self.version, self.generation.current())
    }
}

/// The column names of `columns`.
pub open spec fn column_names(columns: Seq<Column>) -> Seq<Seq<char>> {
    columns.map_values(|c: Column| c.name@)
}

/// A pattern to hand to the matcher for one matched column, with whether it
/// only narrows the column's previous pattern.
pub struct PatternUpdate {
    pub pattern: String,
    pub append: bool,
}

/// For each column that takes part in matching, in order: its new pattern
/// (empty where the query has none) and whether it extends the old one; a
/// column that had no pattern had the empty one, which every pattern extends.
pub open spec fn pattern_updates(columns: Seq<Column>, old: QueryModel, new: QueryModel) -> Seq<(Seq<char>, bool)>
    decreases columns.len(),
{
    if columns.len() == 0 {
        Seq::empty()
    } else {
        let rest = pattern_updates(columns.drop_last(), old, new);
        let c = columns.last();
        if c.filter {
            let pattern = match lookup(new, c.name@) {
                Some(p) => p,
                None => Seq::empty(),
            };
            let append = match lookup(old, c.name@) {
                Some(o) => o.is_prefix_of(pattern),
                None => true,
            };
            rest.push((pattern, append))
        } else {
            rest
        }
    }
}

/// The updates as pairs of pattern and append hint.
pub open spec fn updates_view(u: Seq<PatternUpdate>) -> Seq<(Seq<char>, bool)> {
    u.map_values(|x: PatternUpdate| (x.pattern@, x.append))
}

/// How an activation opens the selected item.
#[derive(Clone, Copy, PartialEq, Eq, Debug, Structural)]
pub enum Action {
    Replace,
    Load,
    HorizontalSplit,
    VerticalSplit,
}

/// Whether a closed picker is kept for reopening.
#[derive(Clone, Copy, PartialEq, Eq, Debug, Structural)]
pub enum CloseMode {
    Discard,
    KeepAsLast,
}

/// How a picker with `item_count` items is closed.
pub open spec fn close_mode(item_count: u32) -> CloseMode {
    if item_count > MAX_ITEMS_TO_KEEP { CloseMode::Discard } else { CloseMode::KeepAsLast }
}

/// The picker's state apart from the matcher and the prompt widget.
pub struct Picker {
    pub columns: Vec<Column>,
    pub primary_column: usize,
    pub cursor: u32,
    /// Rows of the list, as last laid out.
    pub completion_height: u16,
    pub query: PickerQuery,
    pub show_preview: bool,
    pub truncate_start: bool,
    /// Whether items can be previewed.
    pub has_preview: bool,
    /// Widest text seen so far in each column.
    pub widths: Vec<u16>,
    pub generation: Generation,
}

impl Picker {
    /// The columns are valid, the primary one takes part in the list, and the
    /// query names each column at most once.
    pub open spec fn wf(&self) -> bool {
        &&& self.columns.len() > 0
        &&& self.columns.len() <= u32::MAX
        &&& self.primary_column < self.columns.len()
        &&& filtered_count(self.columns@) > 0
        &&& self.widths.len() == self.columns.len()
        &&& keys_distinct(self.query@)
    }

    /// A picker over `columns`, with text without a `%` field going to
    /// `primary_column`, its cursor on the first row and an empty query.
    pub fn new(columns: Vec<Column>, primary_column: usize, generation: Generation) -> (r: Picker)
        requires
            0 < columns.len() <= u32::MAX,
            primary_column < columns.len(),
            filtered_count(columns@) > 0,
        ensures
            r.wf(),
            r.columns@ == columns@,
            r.primary_column == primary_column,
            r.cursor == 0,
            r.completion_height == 0,
            r.query@.len() == 0,
            r.show_preview,
            r.truncate_start,
            !r.has_preview,
            forall|i: int| 0 <= i < columns.len() ==> r.widths@[i] == ((#[trigger] columns@[i]).name@.len() as u16),
    {
        let mut widths: Vec<u16> = Vec::new();
        let mut i: usize = 0;
        while i < columns.len()
            invariant
                i <= columns.len(),
                widths.len() == i,
                forall|j: int| 0 <= j < i ==> widths@[j] == ((#[trigger] columns@[j]).name@.len() as u16),
            decreases columns.len() - i,
        {
            let n = columns[i].name.as_str().unicode_len();
            widths.push(#[verifier::truncate] (n as u16));
            i = i + 1;
        }
        Picker {
            columns,
            primary_column,
            cursor: 0,
            completion_height: 0,
            query: PickerQuery::empty(),
            show_preview: true,
            truncate_start: true,
            has_preview: false,
            widths,
            generation,
        }
    }

    /// A producer handle pinned to the current generation.
    pub fn injector(&self) -> Injector {
        Injector::pinned(self.generation.share())
    }

    /// Sets whether long cells are cut at the start.
    pub fn truncate_start(self, truncate_start: bool) -> (r: Picker)
        ensures
            r == (Picker { truncate_start, ..self }),
    {
        Picker { truncate_start, ..self }
    }

    /// Enables the preview panel.
    pub fn with_preview(self) -> (r: Picker)
        ensures
            r == (Picker { has_preview: true, ..self }),
    {
        Picker { has_preview: true, ..self }
    }

    /// Shows or hides the preview panel.
    pub fn toggle_preview(&mut self)
        ensures
            *final(self) == (Picker { show_preview: !old(self).show_preview, ..*old(self) }),
    {
        self.show_preview = !self.show_preview;
    }

    /// Moves the cursor `amount` rows over `matched` items, wrapping at both
    /// ends; nothing moves when nothing matched.
    pub fn move_by(&mut self, amount: u32, direction: Direction, matched: u32)
        ensures
            *final(self) == (Picker { cursor: moved_cursor(old(self).cursor, amount, direction, matched), ..*old(self) }),
    {
        if matched == 0 {
            return;
        }
        let len = matched as u64;
        let c = self.cursor as u64;
        let a = amount as u64 % len;
        let next = match direction {
            Direction::Forward => (c + a) % len,
            Direction::Backward => (c + len - a) % len,
        };
        proof {
            vstd::arithmetic::div_mod::lemma_add_mod_noop_right(c as int, amount as int, len as int);
            vstd::arithmetic::div_mod::lemma_sub_mod_noop_right(c + len, amount as int, len as int);
        }
        self.cursor = next as u32;
    }

    /// Moves the cursor up by one page.
    pub fn page_up(&mut self, matched: u32)
        ensures
            *final(self) == (Picker {
                cursor: moved_cursor(old(self).cursor, old(self).completion_height as u32, Direction::Backward, matched),
                ..*old(self)
            }),
    {
        self.move_by(self.completion_height as u32, Direction::Backward, matched);
    }

    /// Moves the cursor down by one page.
    pub fn page_down(&mut self, matched: u32)
        ensures
            *final(self) == (Picker {
                cursor: moved_cursor(old(self).cursor, old(self).completion_height as u32, Direction::Forward, matched),
                ..*old(self)
            }),
    {
        self.move_by(self.completion_height as u32, Direction::Forward, matched);
    }

    /// Moves the cursor to the first row.
    pub fn to_start(&mut self)
        ensures
            *final(self) == (Picker { cursor: 0, ..*old(self) }),
    {
        self.cursor = 0;
    }

    /// Moves the cursor to the last of `matched` rows.
    pub fn to_end(&mut self, matched: u32)
        ensures
            *final(self) == (Picker { cursor: if matched == 0 { 0 } else { (matched - 1) as u32 }, ..*old(self) }),
    {
        self.cursor = matched.saturating_sub(1);
    }

    /// After a matcher step: where the matches changed, the cursor is kept on
    /// one of the `matched` rows.
    pub fn tick(&mut self, changed: bool, matched: u32)
        ensures
            final(self).cursor == if changed && old(self).cursor >= matched {
                if matched == 0 { 0 } else { (matched - 1) as u32 }
            } else {
                old(self).cursor
            },
            changed ==> final(self).cursor < if matched == 0 { 1 } else { matched as int },
            *final(self) == (Picker { cursor: final(self).cursor, ..*old(self) }),
    {
        if changed {
            let last = matched.saturating_sub(1);
            if self.cursor > last {
                self.cursor = last;
            }
        }
    }

    /// The first row of the page that holds the cursor, for `rows` visible rows.
    pub fn page_offset(&self, rows: u32) -> (r: u32)
        ensures
            r == page_start(self.cursor, rows),
            r <= self.cursor,
            rows > 0 ==> self.cursor - r < rows,
    {
        if rows == 0 {
            self.cursor
        } else {
            proof {
                vstd::arithmetic::div_mod::lemma_mod_decreases(self.cursor as nat, rows as nat);
            }
            self.cursor - self.cursor % rows
        }
    }

    pub open spec fn spec_header_height(&self) -> u16 {
        if self.columns.len() > 1 { 1u16 } else { 0u16 }
    }

    /// The rows to draw for `rows` visible rows over `matched` items: the
    /// first and one past the last, and the cursor's row within them.
    pub fn visible_window(&self, rows: u32, matched: u32) -> (r: (u32, u32, u32))
        ensures
            r.0 == page_start(self.cursor, rows),
            r.1 as int == if r.0 + rows > matched { matched as int } else { r.0 + rows },
            r.2 == self.cursor - r.0,
    {
        let offset = self.page_offset(rows);
        let end = offset.saturating_add(rows);
        let end = if end > matched { matched } else { end };
        (offset, end, self.cursor - offset)
    }

    /// Widens column `i` to `width` where that is wider than any text seen
    /// before in it; widths never shrink.
    pub fn note_width(&mut self, i: usize, width: usize)
        requires
            i < old(self).widths.len(),
        ensures
            final(self).widths@ == old(self).widths@.update(
                i as int,
                if (width as u16) > old(self).widths@[i as int] { width as u16 } else { old(self).widths@[i as int] },
            ),
            final(self).widths@[i as int] >= old(self).widths@[i as int],
            *final(self) == (Picker { widths: final(self).widths, ..*old(self) }),
    {
        let w = #[verifier::truncate] (width as u16);
        if w > self.widths[i] {
            self.widths.set(i, w);
        }
    }

    /// The header row is shown only with more than one column.
    #[verifier::when_used_as_spec(spec_header_height)]
    pub fn header_height(&self) -> (r: u16)
        ensures
            r == self.spec_header_height(),
    {
        if self.columns.len() > 1 { 1 } else { 0 }
    }

    /// Lays the picker out in `height` rows: what is not chrome or header
    /// holds the list.
    pub fn required_size(&mut self, width: u16, height: u16) -> (r: (u16, u16))
        ensures
            r == (width, height),
            final(self).completion_height as int == if height >= CHROME_HEIGHT + old(self).header_height() {
                height - CHROME_HEIGHT - old(self).header_height()
            } else {
                0
            },
            *final(self) == (Picker { completion_height: final(self).completion_height, ..*old(self) }),
    {
        let chrome = CHROME_HEIGHT + self.header_height();
        self.completion_height = height.saturating_sub(chrome);
        (width, height)
    }

    /// Whether the preview panel is drawn in an area `width` columns wide.
    pub fn preview_visible(&self, width: u16) -> (r: bool)
        ensures
            r == (self.show_preview && self.has_preview && width >= MIN_AREA_WIDTH_FOR_PREVIEW),
    {
        self.show_preview && self.has_preview && width >= MIN_AREA_WIDTH_FOR_PREVIEW
    }

    /// Re-reads the prompt line. Where the query changed, returns for each
    /// matched column the pattern to give the matcher; where it did not,
    /// returns nothing and keeps the query.
    pub fn handle_prompt_change(&mut self, line: &str) -> (r: Vec<PatternUpdate>)
        requires
            old(self).wf(),
        ensures
            final(self).wf(),
            ({
                let new = parse_spec(column_names(old(self).columns@), old(self).primary_column as int, line@);
                if same_query(new, old(self).query@) {
                    &&& r@.len() == 0
                    &&& *final(self) == *old(self)
                } else {
                    &&& updates_view(r@) == pattern_updates(old(self).columns@, old(self).query@, new)
                    &&& final(self).query@ == new
                    &&& final(self).columns == old(self).columns
                    &&& final(self).cursor == old(self).cursor
                    &&& final(self).primary_column == old(self).primary_column
                }
            }),
    {
        let mut names_vec: Vec<String> = Vec::new();
        let mut i: usize = 0;
        while i < self.columns.len()
            invariant
                i <= self.columns.len(),
                names_vec.len() == i,
                forall|j: int| 0 <= j < i ==> (#[trigger] names_vec@[j])@ == self.columns@[j].name@,
            decreases self.columns.len() - i,
        {
            names_vec.push(self.columns[i].name.clone());
            i = i + 1;
        }
        proof {
            assert(names(names_vec@) =~= column_names(self.columns@));
        }
        let new_query = parse(&names_vec, self.primary_column, line);
        if new_query.same_as(&self.query) {
            return Vec::new();
        }
        let mut updates: Vec<PatternUpdate> = Vec::new();
        let mut k: usize = 0;
        while k < self.columns.len()
            invariant
                k <= self.columns.len(),
                keys_distinct(self.query@),
                keys_distinct(new_query@),
                updates_view(updates@) == pattern_updates(self.columns@.take(k as int), self.query@, new_query@),
            decreases self.columns.len() - k,
        {
            proof {
                assert(self.columns@.take(k + 1).drop_last() =~= self.columns@.take(k as int));
            }
            let column = &self.columns[k];
            if column.filter {
                let pattern = match new_query.get(&column.name) {
                    Some(p) => p.clone(),
                    None => String::new(),
                };
                let append = match self.query.get(&column.name) {
                    Some(o) => starts_with(pattern.as_str(), o.as_str()),
                    None => true,
                };
                updates.push(PatternUpdate { pattern, append });
                proof {
                    assert(updates_view(updates@) =~= pattern_updates(self.columns@.take(k + 1), self.query@, new_query@));
                }
            } else {
                proof {
                    assert(updates_view(updates@) =~= pattern_updates(self.columns@.take(k + 1), self.query@, new_query@));
                }
            }
            k = k + 1;
        }
        proof {
            assert(self.columns@.take(k as int) =~= self.columns@);
        }
        self.query = new_query;
        updates
    }

    /// The pattern of the primary column, empty where the query has none.
    pub fn primary_query(&self) -> (r: String)
        requires
            self.wf(),
        ensures
            r@ == match lookup(self.query@, self.columns@[self.primary_column as int].name@) {
                Some(p) => p,
                None => Seq::<char>::empty(),
            },
    {
        match self.query.get(&self.columns[self.primary_column].name) {
            Some(p) => p.clone(),
            None => String::new(),
        }
    }

    /// Closes the picker with `item_count` items. A picker kept for reopening
    /// moves to the next generation, which stops its producers.
    pub fn close(&self, item_count: u32) -> (r: CloseMode)
        ensures
            r == close_mode(item_count),
    {
        if item_count > MAX_ITEMS_TO_KEEP {
            CloseMode::Discard
        } else {
            self.generation.advance();
            CloseMode::KeepAsLast
        }
    }

    /// Stops every producer pinned to the current generation; for when the
    /// picker goes away or its items are replaced.
    pub fn shutdown(&self) {
        self.generation.advance();
    }
}

/// A key, as far as the picker tells keys apart.
#[derive(Clone, Copy, PartialEq, Eq, Debug, Structural)]
pub enum KeyCode {
    Char(char),
    Tab,
    Up,
    Down,
    PageUp,
    PageDown,
    Home,
    End,
    Esc,
    Enter,
    Other,
}

/// A key press and the modifiers held with it.
#[derive(Clone, Copy, PartialEq, Eq, Debug, Structural)]
pub struct KeyPress {
    pub code: KeyCode,
    pub shift: bool,
    pub ctrl: bool,
    pub alt: bool,
}

/// What a key asks of the picker.
#[derive(Clone, Copy, PartialEq, Eq, Debug, Structural)]
pub enum Command {
    MoveUp,
    MoveDown,
    PageUp,
    PageDown,
    ToStart,
    ToEnd,
    Close,
    Select(Action),
    TogglePreview,
    Prompt,
}

pub open spec fn plain(k: KeyPress) -> bool {
    !k.shift && !k.ctrl && !k.alt
}

pub open spec fn ctrl_char(k: KeyPress, c: char) -> bool {
    k.ctrl && !k.shift && !k.alt && k.code == KeyCode::Char(c)
}

/// The picker's key bindings; a key they do not name goes to the prompt.
pub open spec fn command_of(k: KeyPress) -> Command {
    if (k.code == KeyCode::Tab && k.shift && !k.ctrl && !k.alt) || (plain(k) && k.code == KeyCode::Up)
        || ctrl_char(k, 'p') {
        Command::MoveUp
    } else if (plain(k) && (k.code == KeyCode::Tab || k.code == KeyCode::Down)) || ctrl_char(k, 'n') {
        Command::MoveDown
    } else if (plain(k) && k.code == KeyCode::PageDown) || ctrl_char(k, 'd') {
        Command::PageDown
    } else if (plain(k) && k.code == KeyCode::PageUp) || ctrl_char(k, 'u') {
        Command::PageUp
    } else if plain(k) && k.code == KeyCode::Home {
        Command::ToStart
    } else if plain(k) && k.code == KeyCode::End {
        Command::ToEnd
    } else if (plain(k) && k.code == KeyCode::Esc) || ctrl_char(k, 'c') {
        Command::Close
    } else if k.alt && !k.shift && !k.ctrl && k.code == KeyCode::Enter {
        Command::Select(Action::Load)
    } else if plain(k) && k.code == KeyCode::Enter {
        Command::Select(Action::Replace)
    } else if ctrl_char(k, 's') {
        Command::Select(Action::HorizontalSplit)
    } else if ctrl_char(k, 'v') {
        Command::Select(Action::VerticalSplit)
    } else if ctrl_char(k, 't') {
        Command::TogglePreview
    } else {
        Command::Prompt
    }
}

fn is_ctrl_char(k: &KeyPress, c: char) -> (r: bool)
    ensures
        r == ctrl_char(*k, c),
{
    k.ctrl && !k.shift && !k.alt && k.code == KeyCode::Char(c)
}

/// The command that a key press asks for.
pub fn command_for(k: &KeyPress) -> (r: Command)
    ensures
        r == command_of(*k),
{
    let plain = !k.shift && !k.ctrl && !k.alt;
    if (k.code == KeyCode::Tab && k.shift && !k.ctrl && !k.alt) || (plain && k.code == KeyCode::Up)
        || is_ctrl_char(k, 'p') {
        Command::MoveUp
    } else if (plain && (k.code == KeyCode::Tab || k.code == KeyCode::Down)) || is_ctrl_char(k, 'n') {
        Command::MoveDown
    } else if (plain && k.code == KeyCode::PageDown) || is_ctrl_char(k, 'd') {
        Command::PageDown
    } else if (plain && k.code == KeyCode::PageUp) || is_ctrl_char(k, 'u') {
        Command::PageUp
    } else if plain && k.code == KeyCode::Home {
        Command::ToStart
    } else if plain && k.code == KeyCode::End {
        Command::ToEnd
    } else if (plain && k.code == KeyCode::Esc) || is_ctrl_char(k, 'c') {
        Command::Close
    } else if k.alt && !k.shift && !k.ctrl && k.code == KeyCode::Enter {
        Command::Select(Action::Load)
    } else if plain && k.code == KeyCode::Enter {
        Command::Select(Action::Replace)
    } else if is_ctrl_char(k, 's') {
        Command::Select(Action::HorizontalSplit)
    } else if is_ctrl_char(k, 'v') {
        Command::Select(Action::VerticalSplit)
    } else if is_ctrl_char(k, 't') {
        Command::TogglePreview
    } else {
        Command::Prompt
    }
}

/// What the host is to do after a key: open the selection with an action,
/// close the picker, or hand the key to the prompt.
pub struct KeyOutcome {
    pub select: Option<Action>,
    pub close: Option<CloseMode>,
    pub to_prompt: bool,
}

impl Picker {
    /// Handles a key press over `matched` of `item_count` items; `has_selection`
    /// tells whether the cursor is on an item. Moves change the cursor; every
    /// activation but `Load` also closes the picker.
    pub fn handle_key(&mut self, key: KeyPress, matched: u32, item_count: u32, has_selection: bool) -> (r: KeyOutcome)
        ensures
            ({
                let o = *old(self);
                match command_of(key) {
                    Command::MoveUp => *final(self) == (Picker { cursor: moved_cursor(o.cursor, 1, Direction::Backward, matched), ..o }),
                    Command::MoveDown => *final(self) == (Picker { cursor: moved_cursor(o.cursor, 1, Direction::Forward, matched), ..o }),
                    Command::PageUp => *final(self) == (Picker { cursor: moved_cursor(o.cursor, o.completion_height as u32, Direction::Backward, matched), ..o }),
                    Command::PageDown => *final(self) == (Picker { cursor: moved_cursor(o.cursor, o.completion_height as u32, Direction::Forward, matched), ..o }),
                    Command::ToStart => *final(self) == (Picker { cursor: 0, ..o }),
                    Command::ToEnd => *final(self) == (Picker { cursor: if matched == 0 { 0 } else { (matched - 1) as u32 }, ..o }),
                    Command::TogglePreview => *final(self) == (Picker { show_preview: !o.show_preview, ..o }),
                    _ => *final(self) == o,
                }
            }),
            r.to_prompt == (command_of(key) == Command::Prompt),
            r.select == match command_of(key) {
                Command::Select(a) => if has_selection { Some(a) } else { None },
                _ => None::<Action>,
            },
            r.close == match command_of(key) {
                Command::Close => Some(close_mode(item_count)),
                Command::Select(a) => if a != Action::Load { Some(close_mode(item_count)) } else { None },
                _ => None::<CloseMode>,
            },
    {
        let mut out = KeyOutcome { select: None, close: None, to_prompt: false };
        match command_for(&key) {
            Command::MoveUp => self.move_by(1, Direction::Backward, matched),
            Command::MoveDown => self.move_by(1, Direction::Forward, matched),
            Command::PageUp => self.page_up(matched),
            Command::PageDown => self.page_down(matched),
            Command::ToStart => self.to_start(),
            Command::ToEnd => self.to_end(matched),
            Command::TogglePreview => self.toggle_preview(),
            Command::Close => {
                out.close = Some(self.close(item_count));
            },
            Command::Select(a) => {
                if has_selection {
                    out.select = Some(a);
                }
                if a != Action::Load {
                    out.close = Some(self.close(item_count));
                }
            },
            Command::Prompt => {
                out.to_prompt = true;
            },
        }
        out
    }
}

/// The debounce state of a picker whose items are fetched again, on idle,
/// for each new primary pattern.
pub struct DynamicPicker {
    /// The primary pattern last dispatched.
    pub query: String,
}

impl DynamicPicker {
    /// Nothing has been dispatched yet.
    pub fn new() -> (r: DynamicPicker)
        ensures
            r.query@ == Seq::<char>::empty(),
    {
        DynamicPicker { query: String::new() }
    }

    /// After an event has gone to `picker`: on an idle timeout whose primary
    /// pattern differs from the one last dispatched, returns that pattern to
    /// fetch items for and remembers it; otherwise returns nothing.
    pub fn after_event(&mut self, picker: &Picker, idle: bool) -> (r: Option<String>)
        requires
            picker.wf(),
        ensures
            ({
                let current = match lookup(picker.query@, picker.columns@[picker.primary_column as int].name@) {
                    Some(p) => p,
                    None => Seq::<char>::empty(),
                };
                if idle && current != old(self).query@ {
                    &&& r matches Some(q) && q@ == current
                    &&& final(self).query@ == current
                } else {
                    &&& r is None
                    &&& final(self).query@ == old(self).query@
                }
            }),
    {
        if !idle {
            return None;
        }
        let current = picker.primary_query();
        if current == self.query {
            return None;
        }
        self.query = current.clone();
        Some(current)
    }
}

} // verus!
