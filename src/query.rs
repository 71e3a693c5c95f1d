//! The query mini-language: one input line split into a pattern per column.
use vstd::prelude::*;

verus! {

/// The pattern that a parsed query holds for one column.
pub struct QueryField {
    pub column: String,
    pub pattern: String,
}

/// A parsed query: at most one entry per column name, in order of first use.
pub struct PickerQuery {
    pub fields: Vec<QueryField>,
}

/// A query as pairs of column name and pattern.
pub type QueryModel = Seq<(Seq<char>, Seq<char>)>;

impl View for PickerQuery {
    type V = QueryModel;

    open spec fn view(&self) -> QueryModel {
        model(self.fields@)
    }
}

/// Query entries as pairs of column name and pattern.
pub open spec fn model(fields: Seq<QueryField>) -> QueryModel {
    fields.map_values(|f: QueryField| (f.column@, f.pattern@))
}

/// The column names as character sequences.
pub open spec fn names(cols: Seq<String>) -> Seq<Seq<char>> {
    cols.map_values(|s: String| s@)
}

/// No column name occurs twice in the query.
pub open spec fn keys_distinct(q: QueryModel) -> bool {
    forall|i: int, j: int| 0 <= i < q.len() && 0 <= j < q.len() && i != j ==> q[i].0 != q[j].0
}

/// The query holds a pattern for `key`.
pub open spec fn has_key(q: QueryModel, key: Seq<char>) -> bool {
    exists|i: int| 0 <= i < q.len() && q[i].0 == key
}

/// Records `text` for `key`: a column seen before gets it after a single space.
pub open spec fn add_pattern(q: QueryModel, key: Seq<char>, text: Seq<char>) -> QueryModel {
    if has_key(q, key) {
        let i = choose|i: int| 0 <= i < q.len() && q[i].0 == key;
        q.update(i, (key, q[i].1 + seq![' '] + text))
    } else {
        q.push((key, text))
    }
}

/// The length of a name in UTF-8 bytes.
pub open spec fn byte_len(s: Seq<char>) -> int {
    vstd::utf8::encode_utf8(s).len() as int
}

/// Among the first `n` columns, the one that starts with `prefix` and has the
/// shortest name in bytes; the first such one where several are equally short.
pub open spec fn fittest_upto(cols: Seq<Seq<char>>, prefix: Seq<char>, n: int) -> Option<int>
    decreases n,
{
    if n <= 0 {
        None
    } else {
        let best = fittest_upto(cols, prefix, n - 1);
        if prefix.is_prefix_of(cols[n - 1]) && (best is None || byte_len(cols[n - 1]) < byte_len(cols[best->0])) {
            Some(n - 1)
        } else {
            best
        }
    }
}

/// The column that a `%prefix:` token selects, if any.
pub open spec fn fittest(cols: Seq<Seq<char>>, prefix: Seq<char>) -> Option<int> {
    fittest_upto(cols, prefix, cols.len() as int)
}

/// Where the scan of an input line stands after a prefix of it.
pub struct ScanState {
    pub escaped: bool,
    pub quoted: bool,
    pub in_field: bool,
    pub field: Option<int>,
    pub text: Seq<char>,
    pub fields: QueryModel,
}

pub open spec fn scan_start() -> ScanState {
    ScanState {
        escaped: false,
        quoted: false,
        in_field: false,
        field: None,
        text: Seq::empty(),
        fields: Seq::empty(),
    }
}

/// The column that pending text goes to: the selected one, else the primary one.
pub open spec fn target(cols: Seq<Seq<char>>, primary: int, field: Option<int>) -> Seq<char> {
    match field {
        Some(i) => cols[i],
        None => cols[primary],
    }
}

/// Moves the pending text into the query and returns to the primary column.
pub open spec fn finish(cols: Seq<Seq<char>>, primary: int, st: ScanState) -> ScanState {
    ScanState {
        field: None,
        text: Seq::empty(),
        fields: add_pattern(st.fields, target(cols, primary, st.field), st.text),
        ..st
    }
}

/// The scan of one character.
pub open spec fn step(cols: Seq<Seq<char>>, primary: int, st: ScanState, ch: char) -> ScanState {
    if ch == '\\' {
        ScanState { escaped: !st.escaped, ..st }
    } else if st.escaped {
        ScanState {
            escaped: false,
            text: if ch == '%' || ch == '"' {
                st.text.push(ch)
            } else {
                st.text.push('\\').push(ch)
            },
            ..st
        }
    } else if ch == '"' {
        ScanState { quoted: !st.quoted, ..st }
    } else if st.quoted && (ch == '%' || ch == ':' || ch == ' ') {
        ScanState { text: st.text.push(ch), ..st }
    } else if (ch == '%' || ch == ' ') && st.text.len() > 0 {
        ScanState { in_field: ch == '%', ..finish(cols, primary, st) }
    } else if ch == ' ' {
        ScanState { in_field: false, ..st }
    } else if ch == '%' {
        ScanState { in_field: true, ..st }
    } else if ch == ':' && st.in_field {
        ScanState { field: fittest(cols, st.text), text: Seq::empty(), in_field: false, ..st }
    } else {
        ScanState { text: st.text.push(ch), ..st }
    }
}

/// The scan of a whole input, left to right.
pub open spec fn scan(cols: Seq<Seq<char>>, primary: int, input: Seq<char>) -> ScanState
    decreases input.len(),
{
    if input.len() == 0 {
        scan_start()
    } else {
        step(cols, primary, scan(cols, primary, input.drop_last()), input.last())
    }
}

/// The query that an input line denotes: pending text at the end is kept
/// unless it is a dangling `%prefix`.
pub open spec fn parse_spec(cols: Seq<Seq<char>>, primary: int, input: Seq<char>) -> QueryModel {
    let st = scan(cols, primary, input);
    if !st.in_field && st.text.len() > 0 {
        finish(cols, primary, st).fields
    } else {
        st.fields
    }
}

/// Relies on String::push: the character is appended.
#[verifier::external_body]
fn push_char(s: &mut String, c: char)
    ensures
        final(s)@ == old(s)@.push(c),
{
    s.push(c)
}

/// Whether `prefix` begins `s`.
pub(crate) fn starts_with(s: &str, prefix: &str) -> (r: bool)
    ensures
        r == prefix@.is_prefix_of(s@),
{
    let n = prefix.unicode_len();
    if n > s.unicode_len() {
        return false;
    }
    let mut i: usize = 0;
    while i < n
        invariant
            n == prefix@.len(),
            n <= s@.len(),
            i <= n,
            forall|j: int| 0 <= j < i ==> prefix@[j] == s@[j],
        decreases n - i,
    {
        if prefix.get_char(i) != s.get_char(i) {
            assert(prefix@[i as int] != s@.subrange(0, n as int)[i as int]);
            return false;
        }
        i = i + 1;
    }
    assert(prefix@ =~= s@.subrange(0, n as int));
    true
}

proof fn lemma_fittest_in_range(cols: Seq<Seq<char>>, prefix: Seq<char>, n: int)
    requires
        n <= cols.len(),
    ensures
        fittest_upto(cols, prefix, n) matches Some(i) ==> 0 <= i < n && prefix.is_prefix_of(cols[i]),
    decreases n,
{
    if n > 0 {
        lemma_fittest_in_range(cols, prefix, n - 1);
    }
}

/// The column with the shortest name that starts with `prefix`.
fn fittest_column(column_names: &Vec<String>, prefix: &String) -> (r: Option<usize>)
    ensures
        fittest(names(column_names@), prefix@) == opt_int(r),
{
    let ghost cols = names(column_names@);
    let mut best: Option<usize> = None;
    let mut i: usize = 0;
    while i < column_names.len()
        invariant
            i <= column_names.len(),
            cols == names(column_names@),
            fittest_upto(cols, prefix@, i as int) == opt_int(best),
        decreases column_names.len() - i,
    {
        proof {
            lemma_fittest_in_range(cols, prefix@, i as int);
            assert(cols[i as int] == column_names@[i as int]@);
        }
        if starts_with(column_names[i].as_str(), prefix.as_str()) {
            let better = match best {
                Some(b) => {
                    assert(cols[b as int] == column_names@[b as int]@);
                    column_names[i].as_str().as_bytes().len() < column_names[b].as_str().as_bytes().len()
                },
                None => true,
            };
            if better {
                best = Some(i);
            }
        }
        i = i + 1;
    }
    best
}

/// The index of the entry for `key`, if the query holds one.
fn find_key(fields: &Vec<QueryField>, key: &String) -> (r: Option<usize>)
    ensures
        match r {
            Some(i) => i < fields.len() && fields@[i as int].column@ == key@,
            None => forall|j: int| 0 <= j < fields.len() ==> fields@[j].column@ != key@,
        },
{
    let mut i: usize = 0;
    while i < fields.len()
        invariant
            i <= fields.len(),
            forall|j: int| 0 <= j < i ==> fields@[j].column@ != key@,
        decreases fields.len() - i,
    {
        if fields[i].column == *key {
            return Some(i);
        }
        i = i + 1;
    }
    None
}

/// Moves the pending text into the query under the selected column, else the
/// primary one, and clears the selection.
fn finish_field(
    column_names: &Vec<String>,
    primary_column: usize,
    field: &mut Option<usize>,
    text: &mut String,
    fields: &mut Vec<QueryField>,
)
    requires
        primary_column < column_names.len(),
        match *old(field) {
            Some(i) => i < column_names.len(),
            None => true,
        },
        keys_distinct(model(old(fields)@)),
    ensures
        *final(field) == None::<usize>,
        final(text)@ == Seq::<char>::empty(),
        model(final(fields)@) == add_pattern(
            model(old(fields)@),
            target(names(column_names@), primary_column as int, opt_int(*old(field))),
            old(text)@,
        ),
        keys_distinct(model(final(fields)@)),
{
    let ghost cols = names(column_names@);
    let key_index = match *field {
        Some(i) => i,
        None => primary_column,
    };
    *field = None;
    let key = column_names[key_index].clone();
    assert(key@ == cols[key_index as int]);
    let ghost q = model(fields@);
    match find_key(fields, &key) {
        Some(i) => {
            let mut pattern = fields[i].pattern.clone();
            assert(pattern@ == q[i as int].1);
            push_char(&mut pattern, ' ');
            pattern.append(text.as_str());
            assert(pattern@ == q[i as int].1 + seq![' '] + text@);
            fields.set(i, QueryField { column: key, pattern });
            proof {
                assert(q[i as int].0 == key@);
                assert(has_key(q, key@));
                let c = choose|j: int| 0 <= j < q.len() && q[j].0 == key@;
                assert(c == i);
                assert(model(fields@) =~= add_pattern(q, key@, text@));
            }
        },
        None => {
            let mut pattern = String::new();
            std::mem::swap(&mut pattern, text);
            fields.push(QueryField { column: key, pattern });
            proof {
                assert(!has_key(q, key@));
                assert(model(fields@) =~= add_pattern(q, key@, pattern@));
            }
        },
    }
    *text = String::new();
}

/// Splits an input line into a pattern per column.
///
/// Text goes to the primary column unless a `%prefix:` token sends it to the
/// column with the shortest name that starts with `prefix`; a space ends such a
/// token, and runs of spaces count as one. Double quotes make `%`, `:` and
/// space literal; a backslash makes the
/// next `%` or `"` literal and is kept before any other character. Patterns
/// for one column are joined by a single space in input order.
pub fn parse(column_names: &Vec<String>, primary_column: usize, input: &str) -> (q: PickerQuery)
    requires
        primary_column < column_names.len(),
    ensures
        q@ == parse_spec(names(column_names@), primary_column as int, input@),
        keys_distinct(q@),
{
    let ghost cols = names(column_names@);
    let ghost primary = primary_column as int;
    let mut fields: Vec<QueryField> = Vec::new();
    let mut escaped = false;
    let mut quoted = false;
    let mut in_field = false;
    let mut field: Option<usize> = None;
    let mut text = String::new();
    let n = input.unicode_len();
    let mut i: usize = 0;
    proof {
        assert(input@.take(0) =~= Seq::<char>::empty());
        assert(model(fields@) =~= Seq::<(Seq<char>, Seq<char>)>::empty());
    }
    while i < n
        invariant
            n == input@.len(),
            i <= n,
            primary_column < column_names.len(),
            cols == names(column_names@),
            primary == primary_column as int,
            field matches Some(f) ==> f < column_names.len(),
            keys_distinct(model(fields@)),
            scan(cols, primary, input@.take(i as int)) == (ScanState {
                escaped,
                quoted,
                in_field,
                field: opt_int(field),
                text: text@,
                fields: model(fields@),
            }),
        decreases n - i,
    {
        let ch = input.get_char(i);
        proof {
            assert(input@.take(i + 1).drop_last() =~= input@.take(i as int));
            assert(input@.take(i + 1).last() == ch);
        }
        if ch == '\\' {
            escaped = !escaped;
        } else if escaped {
            if ch != '%' && ch != '"' {
                push_char(&mut text, '\\');
            }
            push_char(&mut text, ch);
            escaped = false;
        } else if ch == '"' {
            quoted = !quoted;
        } else if quoted && (ch == '%' || ch == ':' || ch == ' ') {
            push_char(&mut text, ch);
        } else if (ch == '%' || ch == ' ') && !text.as_str().is_empty() {
            finish_field(column_names, primary_column, &mut field, &mut text, &mut fields);
            in_field = ch == '%';
        } else if ch == ' ' {
            in_field = false;
        } else if ch == '%' {
            in_field = true;
        } else if ch == ':' && in_field {
            field = fittest_column(column_names, &text);
            proof {
                lemma_fittest_in_range(cols, text@, cols.len() as int);
            }
            text = String::new();
            in_field = false;
        } else {
            push_char(&mut text, ch);
        }
        i = i + 1;
    }
    proof {
        assert(input@.take(n as int) =~= input@);
    }
    if !in_field && !text.as_str().is_empty() {
        finish_field(column_names, primary_column, &mut field, &mut text, &mut fields);
    }
    PickerQuery { fields }
}

/// Every column name in the query is one of `cols`.
pub open spec fn keys_in(q: QueryModel, cols: Seq<Seq<char>>) -> bool {
    forall|i: int| 0 <= i < q.len() ==> cols.contains(#[trigger] q[i].0)
}

/// No pattern in the query is empty.
pub open spec fn patterns_nonempty(q: QueryModel) -> bool {
    forall|i: int| 0 <= i < q.len() ==> (#[trigger] q[i]).1.len() > 0
}

proof fn lemma_add_pattern_keys(q: QueryModel, cols: Seq<Seq<char>>, key: Seq<char>, text: Seq<char>)
    requires
        keys_in(q, cols),
        patterns_nonempty(q),
        cols.contains(key),
        text.len() > 0,
    ensures
        keys_in(add_pattern(q, key, text), cols),
        patterns_nonempty(add_pattern(q, key, text)),
{
    let r = add_pattern(q, key, text);
    assert forall|i: int| 0 <= i < r.len() implies (#[trigger] r[i]).1.len() > 0 by {
        if i < q.len() && r[i] != q[i] {
            assert(r[i].1.len() >= text.len());
        }
    }
    assert forall|i: int| 0 <= i < r.len() implies cols.contains(#[trigger] r[i].0) by {
        if i < q.len() && r[i].0 != key {
            assert(r[i].0 == q[i].0);
        }
    }
}

proof fn lemma_scan_keys(cols: Seq<Seq<char>>, primary: int, input: Seq<char>)
    requires
        0 <= primary < cols.len(),
    ensures
        scan(cols, primary, input).field matches Some(f) ==> 0 <= f < cols.len(),
        keys_in(scan(cols, primary, input).fields, cols),
        patterns_nonempty(scan(cols, primary, input).fields),
    decreases input.len(),
{
    if input.len() > 0 {
        let prev = scan(cols, primary, input.drop_last());
        lemma_scan_keys(cols, primary, input.drop_last());
        lemma_fittest_in_range(cols, prev.text, cols.len() as int);
        let key = target(cols, primary, prev.field);
        assert(cols.contains(key)) by {
            match prev.field {
                Some(f) => assert(cols[f] == key),
                None => assert(cols[primary] == key),
            }
        }
        if prev.text.len() > 0 {
            lemma_add_pattern_keys(prev.fields, cols, key, prev.text);
        }
    }
}

/// A parsed query names no column that is not declared, and holds no empty
/// pattern: every key of `parse(cols, primary, input)` is one of `cols`.
pub proof fn lemma_parse_keys_are_columns(cols: Seq<Seq<char>>, primary: int, input: Seq<char>)
    requires
        0 <= primary < cols.len(),
    ensures
        keys_in(parse_spec(cols, primary, input), cols),
        patterns_nonempty(parse_spec(cols, primary, input)),
{
    let st = scan(cols, primary, input);
    lemma_scan_keys(cols, primary, input);
    let key = target(cols, primary, st.field);
    assert(cols.contains(key)) by {
        match st.field {
            Some(f) => assert(cols[f] == key),
            None => assert(cols[primary] == key),
        }
    }
    if st.text.len() > 0 {
        lemma_add_pattern_keys(st.fields, cols, key, st.text);
    }
}

/// The input holds none of `%`, `"` and `\`.
pub open spec fn plain_input(input: Seq<char>) -> bool {
    forall|k: int| 0 <= k < input.len() ==> #[trigger] input[k] != '%' && input[k] != '"' && input[k] != '\\'
}

/// The input with every run of spaces shrunk to one space and leading spaces
/// dropped; a single trailing space may remain.
pub open spec fn squeeze(s: Seq<char>) -> Seq<char>
    decreases s.len(),
{
    if s.len() == 0 {
        s
    } else {
        let before = squeeze(s.drop_last());
        if s.last() != ' ' {
            before.push(s.last())
        } else if before.len() == 0 || before.last() == ' ' {
            before
        } else {
            before.push(' ')
        }
    }
}

/// The input with leading and trailing spaces removed and every run of
/// spaces inside shrunk to one space.
pub open spec fn collapse_spaces(s: Seq<char>) -> Seq<char> {
    let q = squeeze(s);
    if q.len() > 0 && q.last() == ' ' {
        q.drop_last()
    } else {
        q
    }
}

proof fn lemma_scan_plain(cols: Seq<Seq<char>>, primary: int, input: Seq<char>)
    requires
        0 <= primary < cols.len(),
        plain_input(input),
    ensures
        ({
            let st = scan(cols, primary, input);
            &&& !st.escaped && !st.quoted && !st.in_field && st.field is None
            &&& st.text.len() > 0 ==> st.text.last() != ' '
            &&& (st.fields.len() == 0 && st.text == squeeze(input)) || (st.fields.len() == 1
                && st.fields[0].0 == cols[primary] && st.fields[0].1.len() > 0
                && st.fields[0].1.last() != ' ' && st.fields[0].1 + seq![' '] + st.text == squeeze(input))
        }),
    decreases input.len(),
{
    if input.len() > 0 {
        let rest = input.drop_last();
        let ch = input.last();
        assert(plain_input(rest)) by {
            assert forall|k: int| 0 <= k < rest.len() implies #[trigger] rest[k] != '%' && rest[k] != '"' && rest[k] != '\\' by {
                assert(rest[k] == input[k]);
            }
        }
        assert(ch == input[input.len() - 1]);
        lemma_scan_plain(cols, primary, rest);
        let prev = scan(cols, primary, rest);
        let st = scan(cols, primary, input);
        let q = squeeze(rest);
        if ch == ' ' && prev.text.len() > 0 {
            let key = cols[primary];
            if prev.fields.len() == 0 {
                assert(!has_key(prev.fields, key));
                assert(st.fields =~= seq![(key, prev.text)]);
                assert(st.fields[0].1 + seq![' '] + st.text =~= squeeze(input));
            } else {
                assert(has_key(prev.fields, key));
                let c = choose|i: int| 0 <= i < prev.fields.len() && prev.fields[i].0 == key;
                assert(c == 0);
                assert(st.fields =~= seq![(key, prev.fields[0].1 + seq![' '] + prev.text)]);
                assert(st.fields[0].1 + seq![' '] + st.text =~= squeeze(input));
            }
        } else if ch == ' ' {
            if prev.fields.len() == 0 {
                assert(squeeze(input) == q);
            } else {
                assert(q.last() == ' ');
                assert(squeeze(input) == q);
            }
        } else {
            assert(st.text == prev.text.push(ch));
            if prev.fields.len() == 0 {
                assert(st.text =~= squeeze(input));
            } else {
                assert(st.fields[0].1 + seq![' '] + st.text =~= squeeze(input));
            }
        }
    }
}

/// Without `%`, `"` and `\` all text goes to the primary column with
/// leading and trailing spaces dropped and runs of spaces shrunk to one; where
/// nothing is left the query is empty.
pub proof fn lemma_parse_plain_input(cols: Seq<Seq<char>>, primary: int, input: Seq<char>)
    requires
        0 <= primary < cols.len(),
        plain_input(input),
    ensures
        collapse_spaces(input).len() == 0 ==> parse_spec(cols, primary, input).len() == 0,
        collapse_spaces(input).len() > 0 ==> parse_spec(cols, primary, input) == seq![
            (cols[primary], collapse_spaces(input)),
        ],
{
    lemma_scan_plain(cols, primary, input);
    let st = scan(cols, primary, input);
    let q = parse_spec(cols, primary, input);
    let key = cols[primary];
    if st.text.len() > 0 {
        if st.fields.len() == 0 {
            assert(!has_key(st.fields, key));
            assert(q =~= seq![(key, st.text)]);
        } else {
            assert(has_key(st.fields, key));
            let c = choose|i: int| 0 <= i < st.fields.len() && st.fields[i].0 == key;
            assert(c == 0);
            assert(q[0].1 =~= squeeze(input));
            assert(q =~= seq![(key, squeeze(input))]);
        }
    } else if st.fields.len() > 0 {
        assert(squeeze(input).drop_last() =~= st.fields[0].1);
        assert(q =~= seq![(key, collapse_spaces(input))]);
    }
}

/// An index as a mathematical integer.
pub open spec fn opt_int(o: Option<usize>) -> Option<int> {
    match o {
        Some(i) => Some(i as int),
        None => None,
    }
}

/// The pattern that the query holds for `key`, if any.
pub open spec fn lookup(q: QueryModel, key: Seq<char>) -> Option<Seq<char>> {
    if has_key(q, key) {
        Some(q[choose|i: int| 0 <= i < q.len() && q[i].0 == key].1)
    } else {
        None
    }
}

/// Two queries hold the same pattern for every column.
pub open spec fn same_query(a: QueryModel, b: QueryModel) -> bool {
    forall|k: Seq<char>| lookup(a, k) == lookup(b, k)
}

impl PickerQuery {
    /// The query with no patterns.
    pub fn empty() -> (r: PickerQuery)
        ensures
            r@ == Seq::<(Seq<char>, Seq<char>)>::empty(),
    {
        let r = PickerQuery { fields: Vec::new() };
        assert(r@ =~= Seq::<(Seq<char>, Seq<char>)>::empty());
        r
    }

    /// The pattern for the column named `key`.
    pub fn get(&self, key: &String) -> (r: Option<&String>)
        requires
            keys_distinct(self@),
        ensures
            match r {
                Some(p) => lookup(self@, key@) == Some(p@),
                None => lookup(self@, key@) is None,
            },
    {
        match find_key(&self.fields, key) {
            Some(i) => {
                proof {
                    assert(self@[i as int].0 == key@);
                    assert(has_key(self@, key@));
                }
                Some(&self.fields[i].pattern)
            },
            None => {
                proof {
                    assert forall|j: int| 0 <= j < self@.len() implies self@[j].0 != key@ by {
                        assert(self@[j].0 == self.fields@[j].column@);
                    }
                }
                None
            },
        }
    }

    /// Whether every entry of `self` is in `other` with the same pattern.
    fn within(&self, other: &PickerQuery) -> (r: bool)
        requires
            keys_distinct(self@),
            keys_distinct(other@),
        ensures
            r <==> forall|k: Seq<char>| has_key(self@, k) ==> lookup(self@, k) == lookup(other@, k),
    {
        let mut i: usize = 0;
        while i < self.fields.len()
            invariant
                i <= self.fields.len(),
                keys_distinct(self@),
                keys_distinct(other@),
                forall|j: int| 0 <= j < i ==> lookup(self@, #[trigger] self@[j].0) == lookup(other@, self@[j].0),
            decreases self.fields.len() - i,
        {
            let f = &self.fields[i];
            proof {
                assert(self@[i as int].0 == f.column@);
                assert(has_key(self@, f.column@));
            }
            let same = match other.get(&f.column) {
                Some(p) => *p == f.pattern,
                None => false,
            };
            if !same {
                return false;
            }
            i = i + 1;
        }
        proof {
            assert forall|k: Seq<char>| has_key(self@, k) implies lookup(self@, k) == lookup(other@, k) by {
                let j = choose|j: int| 0 <= j < self@.len() && self@[j].0 == k;
                assert(lookup(self@, self@[j].0) == lookup(other@, self@[j].0));
            }
        }
        true
    }

    /// Whether both queries hold the same pattern for every column.
    pub fn same_as(&self, other: &PickerQuery) -> (r: bool)
        requires
            keys_distinct(self@),
            keys_distinct(other@),
        ensures
            r == same_query(self@, other@),
    {
        let a = self.within(other);
        let b = other.within(self);
        let r = a && b;
        proof {
            if r {
                assert forall|k: Seq<char>| lookup(self@, k) == lookup(other@, k) by {
                    if !has_key(self@, k) && !has_key(other@, k) {
                    } else if has_key(self@, k) {
                    } else {
                        assert(lookup(other@, k) == lookup(self@, k));
                    }
                }
            } else {
                if !a {
                    let k = choose|k: Seq<char>| !(has_key(self@, k) ==> lookup(self@, k) == lookup(other@, k));
                    assert(lookup(self@, k) != lookup(other@, k));
                } else {
                    let k = choose|k: Seq<char>| !(has_key(other@, k) ==> lookup(other@, k) == lookup(self@, k));
                    assert(lookup(self@, k) != lookup(other@, k));
                }
            }
        }
        r
    }
}

/// The scan of `input` from the state `st`.
pub open spec fn scan_from(cols: Seq<Seq<char>>, primary: int, st: ScanState, input: Seq<char>) -> ScanState
    decreases input.len(),
{
    if input.len() == 0 {
        st
    } else {
        step(cols, primary, scan_from(cols, primary, st, input.drop_last()), input.last())
    }
}

proof fn lemma_scan_is_scan_from(cols: Seq<Seq<char>>, primary: int, input: Seq<char>)
    ensures
        scan(cols, primary, input) == scan_from(cols, primary, scan_start(), input),
    decreases input.len(),
{
    if input.len() > 0 {
        lemma_scan_is_scan_from(cols, primary, input.drop_last());
    }
}

proof fn lemma_scan_from_concat(cols: Seq<Seq<char>>, primary: int, st: ScanState, a: Seq<char>, b: Seq<char>)
    ensures
        scan_from(cols, primary, st, a + b) == scan_from(cols, primary, scan_from(cols, primary, st, a), b),
    decreases b.len(),
{
    if b.len() == 0 {
        assert(a + b =~= a);
    } else {
        assert((a + b).drop_last() =~= a + b.drop_last());
        assert((a + b).last() == b.last());
        lemma_scan_from_concat(cols, primary, st, a, b.drop_last());
    }
}

proof fn lemma_scan_one(cols: Seq<Seq<char>>, primary: int, st: ScanState, ch: char)
    ensures
        scan_from(cols, primary, st, seq![ch]) == step(cols, primary, st, ch),
{
    assert(seq![ch].drop_last() =~= Seq::<char>::empty());
    assert(seq![ch].last() == ch);
    assert(scan_from(cols, primary, st, Seq::<char>::empty()) == st);
}

/// A word: none of the characters that the query language gives a meaning.
pub open spec fn is_word(w: Seq<char>) -> bool {
    forall|k: int| 0 <= k < w.len() ==> {
        let c = #[trigger] w[k];
        c != '\\' && c != '"' && c != '%' && c != ' ' && c != ':'
    }
}

proof fn lemma_scan_word(cols: Seq<Seq<char>>, primary: int, st: ScanState, w: Seq<char>)
    requires
        !st.escaped,
        !st.quoted,
        is_word(w),
    ensures
        scan_from(cols, primary, st, w) == (ScanState { text: st.text + w, ..st }),
    decreases w.len(),
{
    if w.len() == 0 {
        assert(st.text + w =~= st.text);
    } else {
        let rest = w.drop_last();
        assert(is_word(rest)) by {
            assert forall|k: int| 0 <= k < rest.len() implies {
                let c = #[trigger] rest[k];
                c != '\\' && c != '"' && c != '%' && c != ' ' && c != ':'
            } by {
                assert(rest[k] == w[k]);
            }
        }
        lemma_scan_word(cols, primary, st, rest);
        assert(w.last() == w[w.len() - 1]);
        assert((st.text + rest).push(w.last()) =~= st.text + w);
    }
}

/// The token `%f:a`.
pub open spec fn field_token(f: Seq<char>, a: Seq<char>) -> Seq<char> {
    seq!['%'] + f + seq![':'] + a
}

/// The first `m` tokens `%fs[k]:xs[k]`, separated by single spaces.
pub open spec fn field_tokens(fs: Seq<Seq<char>>, xs: Seq<Seq<char>>, m: int) -> Seq<char>
    decreases m,
{
    if m <= 0 {
        Seq::empty()
    } else if m == 1 {
        field_token(fs[0], xs[0])
    } else {
        field_tokens(fs, xs, m - 1) + seq![' '] + field_token(fs[m - 1], xs[m - 1])
    }
}

/// The first `m` texts of `xs`, joined by single spaces.
pub open spec fn joined(xs: Seq<Seq<char>>, m: int) -> Seq<char>
    decreases m,
{
    if m <= 0 {
        Seq::empty()
    } else if m == 1 {
        xs[0]
    } else {
        joined(xs, m - 1) + seq![' '] + xs[m - 1]
    }
}

proof fn lemma_scan_token(cols: Seq<Seq<char>>, primary: int, st: ScanState, f: Seq<char>, a: Seq<char>, c: int)
    requires
        !st.escaped,
        !st.quoted,
        st.text.len() == 0,
        is_word(f),
        is_word(a),
        fittest(cols, f) == Some(c),
    ensures
        scan_from(cols, primary, st, field_token(f, a)) == (ScanState {
            in_field: false,
            field: Some(c),
            text: a,
            ..st
        }),
{
    let p1 = seq!['%'];
    let p2 = p1 + f;
    let p3 = p2 + seq![':'];
    lemma_scan_one(cols, primary, st, '%');
    let s1 = scan_from(cols, primary, st, p1);
    lemma_scan_from_concat(cols, primary, st, p1, f);
    lemma_scan_word(cols, primary, s1, f);
    let s2 = scan_from(cols, primary, st, p2);
    assert(s2.text =~= f);
    lemma_scan_from_concat(cols, primary, st, p2, seq![':']);
    lemma_scan_one(cols, primary, s2, ':');
    let s3 = scan_from(cols, primary, st, p3);
    lemma_scan_from_concat(cols, primary, st, p3, a);
    lemma_scan_word(cols, primary, s3, a);
    assert(scan_from(cols, primary, s3, a).text =~= a);
}

/// The prefixes and texts of `m` assignments to column `c`.
pub open spec fn assigns_to(cols: Seq<Seq<char>>, fs: Seq<Seq<char>>, xs: Seq<Seq<char>>, m: int, c: int) -> bool {
    &&& fs.len() >= m
    &&& xs.len() >= m
    &&& forall|k: int| 0 <= k < m ==> is_word(#[trigger] fs[k]) && fittest(cols, fs[k]) == Some(c)
    &&& forall|k: int| 0 <= k < m ==> is_word(#[trigger] xs[k]) && xs[k].len() > 0
}

proof fn lemma_scan_tokens(cols: Seq<Seq<char>>, primary: int, fs: Seq<Seq<char>>, xs: Seq<Seq<char>>, m: int, c: int)
    requires
        0 <= c < cols.len(),
        m >= 1,
        assigns_to(cols, fs, xs, m, c),
    ensures
        scan_from(cols, primary, scan_start(), field_tokens(fs, xs, m)) == (ScanState {
            escaped: false,
            quoted: false,
            in_field: false,
            field: Some(c),
            text: xs[m - 1],
            fields: if m == 1 { Seq::empty() } else { seq![(cols[c], joined(xs, m - 1))] },
        }),
    decreases m,
{
    let s0 = scan_start();
    assert(is_word(fs[m - 1]) && is_word(xs[m - 1]));
    if m == 1 {
        lemma_scan_token(cols, primary, s0, fs[0], xs[0], c);
    } else {
        assert(assigns_to(cols, fs, xs, m - 1, c));
        lemma_scan_tokens(cols, primary, fs, xs, m - 1, c);
        let head = field_tokens(fs, xs, m - 1);
        let sm = scan_from(cols, primary, s0, head);
        assert(xs[m - 2].len() > 0);
        lemma_scan_from_concat(cols, primary, s0, head, seq![' ']);
        lemma_scan_one(cols, primary, sm, ' ');
        let sp = scan_from(cols, primary, s0, head + seq![' ']);
        if m == 2 {
            assert(!has_key(sm.fields, cols[c]));
            assert(sp.fields =~= seq![(cols[c], joined(xs, 1))]);
        } else {
            assert(sm.fields[0].0 == cols[c]);
            assert(has_key(sm.fields, cols[c]));
            let i = choose|i: int| 0 <= i < sm.fields.len() && sm.fields[i].0 == cols[c];
            assert(i == 0);
            assert(sp.fields =~= seq![(cols[c], joined(xs, m - 1))]);
        }
        lemma_scan_from_concat(cols, primary, s0, head + seq![' '], field_token(fs[m - 1], xs[m - 1]));
        lemma_scan_token(cols, primary, sp, fs[m - 1], xs[m - 1], c);
    }
}

/// Text given to one column several times is kept in input order, the parts
/// joined by single spaces: `%f0:a0 %f1:a1 ...`, where every prefix selects
/// column `c` and the prefixes and texts are words, gives `c` the pattern
/// `a0 a1 ...` and nothing else.
pub proof fn lemma_parse_joins_in_order(
    cols: Seq<Seq<char>>,
    primary: int,
    c: int,
    fs: Seq<Seq<char>>,
    xs: Seq<Seq<char>>,
    m: int,
)
    requires
        0 <= primary < cols.len(),
        0 <= c < cols.len(),
        m >= 1,
        assigns_to(cols, fs, xs, m, c),
    ensures
        parse_spec(cols, primary, field_tokens(fs, xs, m)) == seq![(cols[c], joined(xs, m))],
{
    lemma_scan_is_scan_from(cols, primary, field_tokens(fs, xs, m));
    lemma_scan_tokens(cols, primary, fs, xs, m, c);
    let st = scan(cols, primary, field_tokens(fs, xs, m));
    assert(is_word(xs[m - 1]) && xs[m - 1].len() > 0);
    if m == 1 {
        assert(!has_key(st.fields, cols[c]));
        assert(parse_spec(cols, primary, field_tokens(fs, xs, m)) =~= seq![(cols[c], joined(xs, m))]);
    } else {
        assert(st.fields[0].0 == cols[c]);
        assert(has_key(st.fields, cols[c]));
        let i = choose|i: int| 0 <= i < st.fields.len() && st.fields[i].0 == cols[c];
        assert(i == 0);
        assert(parse_spec(cols, primary, field_tokens(fs, xs, m)) =~= seq![(cols[c], joined(xs, m))]);
    }
}

} // verus!
