//! Reading the settings strings of a note into its settings.

use crate::clozes::keys::{spec_matches_read, spec_write, NoteImportAction, NoteSettingsKeys};
use crate::clozes::parse::{spec_parse_back_reveal, spec_parse_front_conceal};
use crate::clozes::{BackReveal, FrontConceal, NoteId};
use crate::error::{LibraryError, NoteErrorKind};
use crate::notes::json::{json_object_entries, json_string_text, json_view, JsonValue, JsonView};
use crate::notes::lists::{first_index, lex_sorted, list_fold, parse_list, parse_settings_list, strings_view};
use crate::text::find_from;
use crate::text_num::is_digit;
use std::ops::Range;
use vstd::multiset::Multiset;
use vstd::prelude::*;

verus! {

/// The key under which the id of a note is kept.
pub const NOTE_ID_KEY: &'static str = "note-id";

/// The name of the adapter of this library's own database.
pub const DEFAULT_ADAPTER_NAME: &'static str = "spares";

/// The settings of a note.
#[derive(Clone, Debug)]
pub struct NoteSettings {
    pub action: NoteImportAction,
    pub tags: Vec<String>,
    pub keywords: Vec<String>,
    /// Suspends all of the note's cards on creation.
    pub is_suspended: bool,
    /// Applies to all of the note's cards.
    pub front_conceal: FrontConceal,
    /// Applies to all of the note's cards.
    pub back_reveal: BackReveal,
    /// Settings with other keys, in the order they were first given.
    pub custom_data: Vec<(String, JsonValue)>,
    pub linked_notes: Vec<String>,
    pub errors_and_warnings: Vec<LibraryError>,
    pub cards_count: Option<usize>,
}

impl Default for NoteSettings {
    fn default() -> (r: Self)
        ensures
            r.action == NoteImportAction::Add,
            r.tags@.len() == 0,
            r.keywords@.len() == 0,
            !r.is_suspended,
            r.front_conceal == FrontConceal::OnlyGrouping,
            r.back_reveal == BackReveal::FullNote,
            r.custom_data@.len() == 0,
            r.linked_notes@.len() == 0,
            r.errors_and_warnings@.len() == 0,
            r.cards_count is None,
    {
        NoteSettings {
            action: NoteImportAction::Add,
            tags: Vec::new(),
            keywords: Vec::new(),
            is_suspended: false,
            front_conceal: FrontConceal::OnlyGrouping,
            back_reveal: BackReveal::FullNote,
            custom_data: Vec::new(),
            linked_notes: Vec::new(),
            errors_and_warnings: Vec::new(),
            cards_count: None,
        }
    }
}

/// The key under which an adapter keeps the id of a note: the note id key itself for this
/// library's own adapter, and the adapter's name, a hyphen and the note id key otherwise.
pub open spec fn adapter_note_id_key(adapter_name: Seq<char>, note_id_key: Seq<char>) -> Seq<char> {
    if adapter_name == DEFAULT_ADAPTER_NAME@ {
        note_id_key
    } else {
        adapter_name + "-"@ + note_id_key
    }
}

/// The key under which the adapter named `adapter_name` keeps the id of a note.
pub fn get_adapter_note_id_key(adapter_name: &str) -> (r: String)
    ensures
        r@ == adapter_note_id_key(adapter_name@, NOTE_ID_KEY@),
{
    if crate::clozes::keys::str_eq(adapter_name, DEFAULT_ADAPTER_NAME) {
        String::from_str(NOTE_ID_KEY)
    } else {
        let mut out: Vec<char> = Vec::new();
        crate::clozes::parse::push_str(&mut out, adapter_name);
        crate::clozes::parse::push_str(&mut out, "-");
        crate::clozes::parse::push_str(&mut out, NOTE_ID_KEY);
        crate::text::chars_to_string(out.as_slice())
    }
}

// ---------------------------------------------------------------------------------------
// Custom data: an insertion-ordered map from keys to JSON values.

pub type Entries = Seq<(Seq<char>, JsonView)>;

/// The index of the entry with key `k`.
pub open spec fn entry_index(m: Entries, k: Seq<char>, n: int) -> Option<int>
    decreases n,
{
    if n <= 0 {
        None
    } else {
        match entry_index(m, k, n - 1) {
            Some(i) => Some(i),
            None => if m[n - 1].0 == k {
                Some(n - 1)
            } else {
                None
            },
        }
    }
}

pub open spec fn find_entry(m: Entries, k: Seq<char>) -> Option<int> {
    entry_index(m, k, m.len() as int)
}

/// Sets the value of `k`, in its place when it has one, at the end otherwise.
pub open spec fn map_insert(m: Entries, k: Seq<char>, v: JsonView) -> Entries {
    match find_entry(m, k) {
        Some(i) => m.update(i, (k, v)),
        None => m.push((k, v)),
    }
}

/// Sets each of the entries in turn.
pub open spec fn map_extend(m: Entries, entries: Entries) -> Entries
    decreases entries.len(),
{
    if entries.len() == 0 {
        m
    } else {
        map_insert(map_extend(m, entries.drop_last()), entries.last().0, entries.last().1)
    }
}

/// Removes the entry of `k`, keeping the order of the others; its value, if any.
pub open spec fn map_shift_remove(m: Entries, k: Seq<char>) -> (Entries, Option<JsonView>) {
    match find_entry(m, k) {
        Some(i) => (m.remove(i), Some(m[i].1)),
        None => (m, None),
    }
}

/// Removes the entry of `k`, moving the last entry into its place.
pub open spec fn map_swap_remove(m: Entries, k: Seq<char>) -> Entries {
    match find_entry(m, k) {
        Some(i) => if i == m.len() - 1 {
            m.drop_last()
        } else {
            m.update(i, m.last()).drop_last()
        },
        None => m,
    }
}

/// Moves the value of key `from` to key `to`, in the place of `to` when it has one, at the
/// end otherwise, then removes `from` by moving the last entry into its place.
pub open spec fn map_rename(m: Entries, from: Seq<char>, to: Seq<char>) -> Entries {
    match find_entry(m, from) {
        Some(i) => map_swap_remove(map_insert(m, to, m[i].1), from),
        None => m,
    }
}

// ---------------------------------------------------------------------------------------
// Numbers.

/// The value of a non-empty run of decimal digits.
pub open spec fn digits_value(s: Seq<char>) -> nat
    decreases s.len(),
{
    if s.len() == 0 {
        0
    } else {
        digits_value(s.drop_last()) * 10 + (s.last() as u32 - '0' as u32) as nat
    }
}

pub open spec fn all_digits(s: Seq<char>) -> bool {
    forall|i: int| 0 <= i < s.len() ==> is_digit(#[trigger] s[i])
}

/// `str::parse::<i64>`: an optional sign, then at least one decimal digit, the value in
/// the range of `i64`.
pub open spec fn parse_i64(s: Seq<char>) -> Option<i64> {
    if s.len() > 0 && s[0] == '-' {
        let d = s.skip(1);
        if d.len() > 0 && all_digits(d) && digits_value(d) <= 0x8000_0000_0000_0000 {
            Some((-(digits_value(d) as int)) as i64)
        } else {
            None
        }
    } else {
        let d = if s.len() > 0 && s[0] == '+' {
            s.skip(1)
        } else {
            s
        };
        if d.len() > 0 && all_digits(d) && digits_value(d) <= 0x7FFF_FFFF_FFFF_FFFF {
            Some(digits_value(d) as i64)
        } else {
            None
        }
    }
}

// ---------------------------------------------------------------------------------------
// The settings, as values.

/// A problem found in the settings: an invalid setting or a warning, with its message.
pub enum Issue {
    Invalid(Seq<char>),
    Warning(Seq<char>),
}

/// The tags: a list as given, or, once a tags setting was read, the sorted list of a
/// collection of tags.
pub enum TagsView {
    Listed(Seq<Seq<char>>),
    Sorted(Multiset<Seq<char>>),
}

pub open spec fn tags_multiset(t: TagsView) -> Multiset<Seq<char>> {
    match t {
        TagsView::Listed(s) => s.to_multiset(),
        TagsView::Sorted(m) => m,
    }
}

pub struct SettingsView {
    pub action: NoteImportAction,
    pub tags: TagsView,
    pub keywords: Seq<Seq<char>>,
    pub is_suspended: bool,
    pub front_conceal: FrontConceal,
    pub back_reveal: BackReveal,
    pub custom: Entries,
    /// The problems found, each with the range of the settings it concerns.
    pub issues: Seq<(Issue, Range<usize>)>,
}

/// Some keyword contains `TODO`.
pub open spec fn todo_in(keywords: Seq<Seq<char>>) -> bool {
    exists|i: int| 0 <= i < keywords.len() && (#[trigger] find_from(keywords[i], "TODO"@, 0)) is Some
}

pub open spec fn not_found_warnings(missing: Seq<Seq<char>>, at: Range<usize>) -> Seq<(Issue, Range<usize>)> {
    missing.map_values(
        |m: Seq<char>|
            (Issue::Warning("The item `"@ + m + "` was not found, so it could not be removed."@), at),
    )
}

pub open spec fn with_issue(sv: SettingsView, issue: Issue, at: Range<usize>) -> SettingsView {
    SettingsView { issues: sv.issues.push((issue, at)), ..sv }
}

/// The action setting: the action asked for, or an invalid action.
pub open spec fn action_effect(sv: SettingsView, value: Seq<char>, at: Range<usize>, keys: NoteSettingsKeys) -> (
    SettingsView,
    Option<NoteImportAction>,
) {
    if spec_matches_read(keys.action_add, value) {
        (sv, Some(NoteImportAction::Add))
    } else if spec_matches_read(keys.action_update, value) {
        (sv, Some(NoteImportAction::Update(0)))
    } else if spec_matches_read(keys.action_delete, value) {
        (sv, Some(NoteImportAction::Delete(0)))
    } else {
        (with_issue(sv, Issue::Invalid("The action `"@ + value + "` is not supported."@), at), None)
    }
}

/// The tags setting: the tags changed by its items and then sorted, with a warning for
/// each tag that could not be removed.
pub open spec fn tags_effect(sv: SettingsView, value: Seq<char>, at: Range<usize>) -> SettingsView {
    let items = parse_list(value);
    let r = tags_fold(tags_multiset(sv.tags), items, items.len() as int);
    SettingsView { tags: TagsView::Sorted(r.0), issues: sv.issues + not_found_warnings(r.1, at), ..sv }
}

/// The keywords setting: the keywords changed by its items, with a warning for each one
/// that could not be removed, and a warning when a keyword contains `TODO`.
pub open spec fn keywords_effect(sv: SettingsView, value: Seq<char>, at: Range<usize>) -> SettingsView {
    let items = parse_list(value);
    let r = list_fold(sv.keywords, items, items.len() as int);
    let issues = sv.issues + not_found_warnings(r.1, at);
    SettingsView {
        keywords: r.0,
        issues: if todo_in(r.0) {
            issues.push((Issue::Warning("The field `keywords` contains TODO."@), at))
        } else {
            issues
        },
        ..sv
    }
}

pub open spec fn front_conceal_effect(sv: SettingsView, value: Seq<char>, at: Range<usize>) -> SettingsView {
    match spec_parse_front_conceal(value) {
        Some(f) => SettingsView { front_conceal: f, ..sv },
        None => with_issue(sv, Issue::Invalid("Failed to parse front conceal: Matching variant not found"@), at),
    }
}

pub open spec fn back_reveal_effect(sv: SettingsView, value: Seq<char>, at: Range<usize>) -> SettingsView {
    match spec_parse_back_reveal(value) {
        Some(b) => SettingsView { back_reveal: b, ..sv },
        None => with_issue(sv, Issue::Invalid("Failed to parse front conceal: Matching variant not found"@), at),
    }
}

/// The custom data setting: a JSON object whose entries are set in the custom data.
pub open spec fn custom_data_effect(sv: SettingsView, value: Seq<char>, at: Range<usize>) -> SettingsView {
    match json_object_entries(value) {
        Ok(entries) => SettingsView { custom: map_extend(sv.custom, entries), ..sv },
        Err(msg) => with_issue(sv, Issue::Invalid("Failed to parse custom data: "@ + msg), at),
    }
}

/// Any other setting: its value is kept, as a JSON string, under its key in the custom data.
pub open spec fn other_effect(sv: SettingsView, key: Seq<char>, value: Seq<char>) -> SettingsView {
    SettingsView { custom: map_insert(sv.custom, key, JsonView { text: json_string_text(value), as_str: Some(value) }), ..sv }
}

/// The effect of one setting `key: value` on settings `sv`, and the action it asks for.
pub open spec fn apply_setting(
    sv: SettingsView,
    key: Seq<char>,
    value: Seq<char>,
    at: Range<usize>,
    keys: NoteSettingsKeys,
) -> (SettingsView, Option<NoteImportAction>) {
    if spec_matches_read(keys.action, key) {
        action_effect(sv, value, at, keys)
    } else if spec_matches_read(keys.tags, key) {
        (tags_effect(sv, value, at), None)
    } else if spec_matches_read(keys.keywords, key) {
        (keywords_effect(sv, value, at), None)
    } else if spec_matches_read(keys.is_suspended, key) {
        (SettingsView { is_suspended: true, ..sv }, None)
    } else if spec_matches_read(keys.front_conceal, key) {
        (front_conceal_effect(sv, value, at), None)
    } else if spec_matches_read(keys.back_reveal, key) {
        (back_reveal_effect(sv, value, at), None)
    } else if spec_matches_read(keys.custom_data, key) {
        (custom_data_effect(sv, value, at), None)
    } else {
        (other_effect(sv, key, value), None)
    }
}

/// One item of the tags setting applied to a collection of tags: `-*` empties it, `-tag`
/// removes one `tag` (or names it as missing), and any other non-empty item adds it.
pub open spec fn tags_step(m: Multiset<Seq<char>>, item: Seq<char>) -> (Multiset<Seq<char>>, Option<Seq<char>>) {
    if item.len() > 0 && item[0] == '-' {
        let stripped = item.skip(1);
        if stripped == seq!['*'] {
            (Multiset::empty(), None)
        } else if m.count(stripped) > 0 {
            (m.remove(stripped), None)
        } else {
            (m, Some(stripped))
        }
    } else if item.len() > 0 {
        (m.insert(item), None)
    } else {
        (m, None)
    }
}

pub open spec fn tags_fold(m: Multiset<Seq<char>>, items: Seq<Seq<char>>, n: int) -> (Multiset<Seq<char>>, Seq<Seq<char>>)
    decreases n,
{
    if n <= 0 {
        (m, Seq::empty())
    } else {
        let (t, missing) = tags_fold(m, items, n - 1);
        let (t2, x) = tags_step(t, items[n - 1]);
        (t2, match x {
            Some(y) => missing.push(y),
            None => missing,
        })
    }
}

/// Applying a tags setting to a list of tags changes its collection as applying it to the
/// collection does, and names the same missing tags.
proof fn lemma_tags_fold(s: Seq<Seq<char>>, items: Seq<Seq<char>>, n: int)
    requires
        0 <= n <= items.len(),
    ensures
        list_fold(s, items, n).0.to_multiset() == tags_fold(s.to_multiset(), items, n).0,
        list_fold(s, items, n).1 == tags_fold(s.to_multiset(), items, n).1,
    decreases n,
{
    broadcast use vstd::seq_lib::group_to_multiset_ensures;
    if n > 0 {
        lemma_tags_fold(s, items, n - 1);
        let l = list_fold(s, items, n - 1).0;
        let item = items[n - 1];
        if item.len() > 0 && item[0] == '-' {
            let stripped = item.skip(1);
            if stripped != seq!['*'] {
                lemma_first_index_in(l, stripped, l.len() as int);
                match first_index(l, stripped, l.len() as int) {
                    Some(i) => {
                        vstd::seq_lib::to_multiset_remove(l, i);
                    },
                    None => {
                        assert(!l.contains(stripped));
                    },
                }
            } else {
                assert(Seq::<Seq<char>>::empty().to_multiset() =~= Multiset::empty());
            }
        }
    }
}

proof fn lemma_first_index_in(items: Seq<Seq<char>>, x: Seq<char>, n: int)
    requires
        0 <= n <= items.len(),
    ensures
        first_index(items, x, n) matches Some(i) ==> 0 <= i < n && items[i] == x,
        first_index(items, x, n) is None ==> forall|j: int| 0 <= j < n ==> items[j] != x,
    decreases n,
{
    if n > 0 {
        lemma_first_index_in(items, x, n - 1);
    }
}

/// The settings `s` are those the view `v` describes, with the problems of `v` appended as
/// errors to those `base` had.
pub open spec fn issue_error(e: LibraryError, issue: (Issue, Range<usize>), data: Seq<char>) -> bool {
    match issue.0 {
        Issue::Invalid(d) => e matches LibraryError::Note(NoteErrorKind::InvalidSettings { description, advice, src, at })
            && description@ == d && advice is None && src@ == data && at == issue.1,
        Issue::Warning(d) => e matches LibraryError::Note(NoteErrorKind::SettingsWarning { description, src, at })
            && description@ == d && src@ == data && at == issue.1,
    }
}

pub open spec fn settings_match(s: NoteSettings, base: NoteSettings, v: SettingsView, data: Seq<char>) -> bool {
    &&& s.action == v.action
    &&& match v.tags {
        TagsView::Listed(t) => strings_view(s.tags@) == t,
        TagsView::Sorted(m) => lex_sorted(strings_view(s.tags@)) && strings_view(s.tags@).to_multiset() == m,
    }
    &&& strings_view(s.keywords@) == v.keywords
    &&& s.is_suspended == v.is_suspended
    &&& s.front_conceal == v.front_conceal
    &&& s.back_reveal == v.back_reveal
    &&& crate::notes::json::entries_view(s.custom_data@) == v.custom
    &&& s.errors_and_warnings@.len() == base.errors_and_warnings@.len() + v.issues.len()
    &&& s.errors_and_warnings@.take(base.errors_and_warnings@.len() as int) == base.errors_and_warnings@
    &&& forall|i: int|
        0 <= i < v.issues.len() ==> issue_error(
            #[trigger] s.errors_and_warnings@[base.errors_and_warnings@.len() + i],
            v.issues[i],
            data,
        )
    &&& s.linked_notes == base.linked_notes
    &&& s.cards_count == base.cards_count
}

/// The settings as given, before any settings string is read.
pub open spec fn initial_view(s: NoteSettings) -> SettingsView {
    SettingsView {
        action: s.action,
        tags: TagsView::Listed(strings_view(s.tags@)),
        keywords: strings_view(s.keywords@),
        is_suspended: s.is_suspended,
        front_conceal: s.front_conceal,
        back_reveal: s.back_reveal,
        custom: crate::notes::json::entries_view(s.custom_data@),
        issues: Seq::empty(),
    }
}

proof fn lemma_initial_match(s: NoteSettings, data: Seq<char>)
    ensures
        settings_match(s, s, initial_view(s), data),
{
    assert(s.errors_and_warnings@.take(s.errors_and_warnings@.len() as int) =~= s.errors_and_warnings@);
}

fn push_issue(s: &mut NoteSettings, e: LibraryError, Ghost(base): Ghost<NoteSettings>, Ghost(v): Ghost<SettingsView>, Ghost(issue): Ghost<(Issue, Range<usize>)>, Ghost(data): Ghost<Seq<char>>)
    requires
        settings_match(*old(s), base, v, data),
        issue_error(e, issue, data),
    ensures
        settings_match(*final(s), base, SettingsView { issues: v.issues.push(issue), ..v }, data),
{
    let ghost before = s.errors_and_warnings@;
    s.errors_and_warnings.push(e);
    proof {
        let n = base.errors_and_warnings@.len();
        assert(s.errors_and_warnings@ =~= before.push(e));
        assert(s.errors_and_warnings@.take(n as int) =~= before.take(n as int));
        let v2 = SettingsView { issues: v.issues.push(issue), ..v };
        assert forall|i: int| 0 <= i < v2.issues.len() implies issue_error(
            #[trigger] s.errors_and_warnings@[n + i],
            v2.issues[i],
            data,
        ) by {
            if i < v.issues.len() {
                assert(s.errors_and_warnings@[n + i] == before[n + i]);
            }
        }
    }
}

fn invalid_error(description: String, data: &str, at: &Range<usize>) -> (e: LibraryError)
    ensures
        issue_error(e, (Issue::Invalid(description@), *at), data@),
{
    LibraryError::Note(
        NoteErrorKind::InvalidSettings {
            description,
            advice: None,
            src: String::from_str(data),
            at: Range { start: at.start, end: at.end },
        },
    )
}

fn warning_error(description: String, data: &str, at: &Range<usize>) -> (e: LibraryError)
    ensures
        issue_error(e, (Issue::Warning(description@), *at), data@),
{
    LibraryError::Note(
        NoteErrorKind::SettingsWarning { description, src: String::from_str(data), at: Range { start: at.start, end: at.end } },
    )
}

fn message3(a: &str, b: &str, c: &str) -> (r: String)
    ensures
        r@ == a@ + b@ + c@,
{
    let mut out: Vec<char> = Vec::new();
    crate::clozes::parse::push_str(&mut out, a);
    crate::clozes::parse::push_str(&mut out, b);
    crate::clozes::parse::push_str(&mut out, c);
    crate::text::chars_to_string(out.as_slice())
}

proof fn lemma_entry_index(m: Entries, k: Seq<char>, n: int)
    requires
        0 <= n <= m.len(),
    ensures
        entry_index(m, k, n) matches Some(i) ==> 0 <= i < n && m[i].0 == k,
        entry_index(m, k, n) is None ==> forall|j: int| 0 <= j < n ==> m[j].0 != k,
    decreases n,
{
    if n > 0 {
        lemma_entry_index(m, k, n - 1);
    }
}

proof fn lemma_entry_index_stable(m: Entries, k: Seq<char>, j: int, n: int)
    requires
        0 <= j < n,
        entry_index(m, k, j) is None,
        m[j].0 == k,
    ensures
        entry_index(m, k, n) == Some(j),
    decreases n - j,
{
    if n > j + 1 {
        lemma_entry_index_stable(m, k, j, n - 1);
    }
}

/// The index of the entry with key `k`.
fn find_entry_exec(custom: &Vec<(String, JsonValue)>, k: &str) -> (r: Option<usize>)
    ensures
        match (r, find_entry(crate::notes::json::entries_view(custom@), k@)) {
            (Some(i), Some(j)) => i == j && i < custom.len(),
            (None, None) => true,
            _ => false,
        },
{
    let ghost m = crate::notes::json::entries_view(custom@);
    let mut j: usize = 0;
    while j < custom.len()
        invariant
            0 <= j <= custom.len(),
            m == crate::notes::json::entries_view(custom@),
            entry_index(m, k@, j as int) is None,
        decreases custom.len() - j,
    {
        if crate::clozes::keys::str_eq(custom[j].0.as_str(), k) {
            proof {
                assert(m[j as int].0 == k@);
                lemma_entry_index_stable(m, k@, j as int, custom.len() as int);
            }
            return Some(j);
        }
        j += 1;
    }
    None
}

fn map_insert_exec(custom: &mut Vec<(String, JsonValue)>, k: String, v: JsonValue)
    ensures
        crate::notes::json::entries_view(final(custom)@) == map_insert(
            crate::notes::json::entries_view(old(custom)@),
            k@,
            json_view(v),
        ),
{
    let ghost m = crate::notes::json::entries_view(custom@);
    let ghost before = custom@;
    match find_entry_exec(custom, k.as_str()) {
        Some(i) => {
            custom.set(i, (k, v));
            proof {
                assert(crate::notes::json::entries_view(custom@) =~= m.update(i as int, (k@, json_view(v))));
            }
        },
        None => {
            custom.push((k, v));
            proof {
                assert(crate::notes::json::entries_view(custom@) =~= m.push((k@, json_view(v))));
            }
        },
    }
}

fn map_extend_exec(custom: &mut Vec<(String, JsonValue)>, entries: Vec<(String, JsonValue)>)
    ensures
        crate::notes::json::entries_view(final(custom)@) == map_extend(
            crate::notes::json::entries_view(old(custom)@),
            crate::notes::json::entries_view(entries@),
        ),
{
    let ghost start = crate::notes::json::entries_view(custom@);
    let ghost ev = crate::notes::json::entries_view(entries@);
    let mut rest = entries;
    let ghost total = rest@;
    let n0 = rest.len();
    let mut i: usize = 0;
    proof {
        assert(total.len() == n0);
        assert(ev.take(0) =~= Entries::empty());
    }
    while rest.len() > 0
        invariant
            ev == crate::notes::json::entries_view(total),
            rest@ == total.skip(i as int),
            i <= total.len(),
            total.len() == n0,
            crate::notes::json::entries_view(custom@) == map_extend(start, ev.take(i as int)),
        decreases rest.len(),
    {
        let ghost r0 = rest@;
        let (k, v) = rest.remove(0);
        proof {
            assert(r0[0] == total[i as int]);
            assert(rest@ =~= total.skip(i + 1));
            assert(ev.take(i + 1).drop_last() =~= ev.take(i as int));
            assert(ev.take(i + 1).last() == (k@, json_view(v)));
        }
        map_insert_exec(custom, k, v);
        i += 1;
    }
    proof {
        assert(ev.take(total.len() as int) =~= ev);
    }
}

/// Removes the entry of `k`, keeping the order of the others; its value, if any.
fn map_shift_remove_exec(custom: &mut Vec<(String, JsonValue)>, k: &str) -> (r: Option<JsonValue>)
    ensures
        ({
            let (m2, removed) = map_shift_remove(crate::notes::json::entries_view(old(custom)@), k@);
            &&& crate::notes::json::entries_view(final(custom)@) == m2
            &&& match (r, removed) {
                (Some(a), Some(b)) => json_view(a) == b,
                (None, None) => true,
                _ => false,
            }
        }),
{
    let ghost m = crate::notes::json::entries_view(custom@);
    match find_entry_exec(custom, k) {
        Some(i) => {
            let (_, v) = custom.remove(i);
            proof {
                assert(crate::notes::json::entries_view(custom@) =~= m.remove(i as int));
            }
            Some(v)
        },
        None => None,
    }
}

fn map_swap_remove_exec(custom: &mut Vec<(String, JsonValue)>, k: &str)
    ensures
        crate::notes::json::entries_view(final(custom)@) == map_swap_remove(
            crate::notes::json::entries_view(old(custom)@),
            k@,
        ),
{
    let ghost m = crate::notes::json::entries_view(custom@);
    match find_entry_exec(custom, k) {
        Some(i) => {
            custom.swap_remove(i);
            proof {
                if i == m.len() - 1 {
                    assert(crate::notes::json::entries_view(custom@) =~= m.drop_last());
                } else {
                    assert(crate::notes::json::entries_view(custom@) =~= m.update(i as int, m.last()).drop_last());
                }
            }
        },
        None => {},
    }
}

pub(crate) fn copy_json(v: &JsonValue) -> (r: JsonValue)
    ensures
        r == *v,
{
    JsonValue {
        text: v.text.clone(),
        as_str: match &v.as_str {
            Some(s) => Some(s.clone()),
            None => None,
        },
    }
}

fn map_rename_exec(custom: &mut Vec<(String, JsonValue)>, from: &str, to: &str)
    ensures
        crate::notes::json::entries_view(final(custom)@) == map_rename(
            crate::notes::json::entries_view(old(custom)@),
            from@,
            to@,
        ),
{
    match find_entry_exec(custom, from) {
        Some(i) => {
            let v = copy_json(&custom[i].1);
            map_insert_exec(custom, String::from_str(to), v);
            map_swap_remove_exec(custom, from);
        },
        None => {},
    }
}

fn push_missing_warnings(
    s: &mut NoteSettings,
    missing: &Vec<String>,
    at: &Range<usize>,
    data: &str,
    Ghost(base): Ghost<NoteSettings>,
    Ghost(v): Ghost<SettingsView>,
)
    requires
        settings_match(*old(s), base, v, data@),
    ensures
        settings_match(
            *final(s),
            base,
            SettingsView { issues: v.issues + not_found_warnings(strings_view(missing@), *at), ..v },
            data@,
        ),
{
    let ghost ms = strings_view(missing@);
    let mut i: usize = 0;
    proof {
        assert(v.issues + not_found_warnings(ms.take(0), *at) =~= v.issues);
    }
    while i < missing.len()
        invariant
            0 <= i <= missing.len(),
            ms == strings_view(missing@),
            settings_match(*s, base, SettingsView { issues: v.issues + not_found_warnings(ms.take(i as int), *at), ..v }, data@),
        decreases missing.len() - i,
    {
        let ghost vi = SettingsView { issues: v.issues + not_found_warnings(ms.take(i as int), *at), ..v };
        let msg = message3("The item `", missing[i].as_str(), "` was not found, so it could not be removed.");
        let e = warning_error(msg, data, at);
        push_issue(s, e, Ghost(base), Ghost(vi), Ghost((Issue::Warning(msg@), *at)), Ghost(data@));
        proof {
            assert(ms.take(i + 1) =~= ms.take(i as int).push(ms[i as int]));
            assert(v.issues + not_found_warnings(ms.take(i + 1), *at) =~= vi.issues.push((Issue::Warning(msg@), *at)));
        }
        i += 1;
    }
    proof {
        assert(ms.take(missing.len() as int) =~= ms);
    }
}

fn tags_exec(
    s: &mut NoteSettings,
    value: &str,
    at: &Range<usize>,
    data: &str,
    Ghost(base): Ghost<NoteSettings>,
    Ghost(v): Ghost<SettingsView>,
)
    requires
        settings_match(*old(s), base, v, data@),
    ensures
        settings_match(*final(s), base, tags_effect(v, value@, *at), data@),
{
    broadcast use vstd::seq_lib::group_to_multiset_ensures;
    let ghost old_tags = strings_view(s.tags@);
    let ghost items = parse_list(value@);
    let res = parse_settings_list(value, &mut s.tags, true);
    proof {
        lemma_tags_fold(old_tags, items, items.len() as int);
        assert(old_tags.to_multiset() == tags_multiset(v.tags));
    }
    let missing = match res {
        Ok(()) => Vec::new(),
        Err(m) => m,
    };
    let ghost r = tags_fold(tags_multiset(v.tags), items, items.len() as int);
    proof {
        assert(strings_view(missing@) == r.1);
    }
    push_missing_warnings(s, &missing, at, data, Ghost(base), Ghost(SettingsView { tags: TagsView::Sorted(r.0), ..v }));
}

fn todo_in_exec(keywords: &Vec<String>) -> (r: bool)
    ensures
        r == todo_in(strings_view(keywords@)),
{
    let todo = crate::text::str_chars("TODO");
    let ghost kv = strings_view(keywords@);
    let mut i: usize = 0;
    while i < keywords.len()
        invariant
            0 <= i <= keywords.len(),
            kv == strings_view(keywords@),
            todo@ == "TODO"@,
            forall|j: int| 0 <= j < i ==> (#[trigger] find_from(kv[j], "TODO"@, 0)) is None,
        decreases keywords.len() - i,
    {
        let k = crate::text::str_chars(keywords[i].as_str());
        proof {
            assert(k@.subrange(0, k@.len() as int) =~= k@);
        }
        if crate::text::find_in(&k, 0, k.len(), &todo, 0).is_some() {
            proof {
                assert(find_from(kv[i as int], "TODO"@, 0) is Some);
            }
            return true;
        }
        i += 1;
    }
    false
}

fn keywords_exec(
    s: &mut NoteSettings,
    value: &str,
    at: &Range<usize>,
    data: &str,
    Ghost(base): Ghost<NoteSettings>,
    Ghost(v): Ghost<SettingsView>,
)
    requires
        settings_match(*old(s), base, v, data@),
    ensures
        settings_match(*final(s), base, keywords_effect(v, value@, *at), data@),
{
    let ghost items = parse_list(value@);
    let res = parse_settings_list(value, &mut s.keywords, false);
    let missing = match res {
        Ok(()) => Vec::new(),
        Err(m) => m,
    };
    let ghost r = list_fold(v.keywords, items, items.len() as int);
    proof {
        assert(strings_view(missing@) == r.1);
    }
    let ghost v1 = SettingsView { keywords: r.0, ..v };
    push_missing_warnings(s, &missing, at, data, Ghost(base), Ghost(v1));
    let ghost v2 = SettingsView { issues: v1.issues + not_found_warnings(r.1, *at), ..v1 };
    if todo_in_exec(&s.keywords) {
        let msg = String::from_str("The field `keywords` contains TODO.");
        proof {
            reveal_strlit("The field `keywords` contains TODO.");
        }
        let e = warning_error(msg, data, at);
        push_issue(s, e, Ghost(base), Ghost(v2), Ghost((Issue::Warning(msg@), *at)), Ghost(data@));
    }
}

fn action_exec(
    s: &mut NoteSettings,
    value: &str,
    at: &Range<usize>,
    data: &str,
    keys: &NoteSettingsKeys,
    Ghost(base): Ghost<NoteSettings>,
    Ghost(v): Ghost<SettingsView>,
) -> (r: Option<NoteImportAction>)
    requires
        settings_match(*old(s), base, v, data@),
    ensures
        settings_match(*final(s), base, action_effect(v, value@, *at, *keys).0, data@),
        r == action_effect(v, value@, *at, *keys).1,
{
    if keys.action_add.matches_read(value) {
        Some(NoteImportAction::Add)
    } else if keys.action_update.matches_read(value) {
        Some(NoteImportAction::Update(0))
    } else if keys.action_delete.matches_read(value) {
        Some(NoteImportAction::Delete(0))
    } else {
        let msg = message3("The action `", value, "` is not supported.");
        let e = invalid_error(msg, data, at);
        push_issue(s, e, Ghost(base), Ghost(v), Ghost((Issue::Invalid(msg@), *at)), Ghost(data@));
        None
    }
}

fn conceal_exec(
    s: &mut NoteSettings,
    value: &str,
    at: &Range<usize>,
    data: &str,
    front: bool,
    Ghost(base): Ghost<NoteSettings>,
    Ghost(v): Ghost<SettingsView>,
)
    requires
        settings_match(*old(s), base, v, data@),
    ensures
        settings_match(
            *final(s),
            base,
            if front {
                front_conceal_effect(v, value@, *at)
            } else {
                back_reveal_effect(v, value@, *at)
            },
            data@,
        ),
{
    let ok = if front {
        match FrontConceal::parse_setting(value) {
            Some(f) => {
                s.front_conceal = f;
                true
            },
            None => false,
        }
    } else {
        match BackReveal::parse_setting(value) {
            Some(b) => {
                s.back_reveal = b;
                true
            },
            None => false,
        }
    };
    if !ok {
        let msg = String::from_str("Failed to parse front conceal: Matching variant not found");
        proof {
            reveal_strlit("Failed to parse front conceal: Matching variant not found");
        }
        let e = invalid_error(msg, data, at);
        push_issue(s, e, Ghost(base), Ghost(v), Ghost((Issue::Invalid(msg@), *at)), Ghost(data@));
    }
}

fn custom_data_exec(
    s: &mut NoteSettings,
    value: &str,
    at: &Range<usize>,
    data: &str,
    Ghost(base): Ghost<NoteSettings>,
    Ghost(v): Ghost<SettingsView>,
)
    requires
        settings_match(*old(s), base, v, data@),
    ensures
        settings_match(*final(s), base, custom_data_effect(v, value@, *at), data@),
{
    match crate::notes::json::parse_json_object(value) {
        Ok(entries) => {
            map_extend_exec(&mut s.custom_data, entries);
        },
        Err(msg) => {
            let m = message3("Failed to parse custom data: ", msg.as_str(), "");
            proof {
                assert(m@ == "Failed to parse custom data: "@ + msg@ + ""@);
                reveal_strlit("");
                assert("Failed to parse custom data: "@ + msg@ + ""@ =~= "Failed to parse custom data: "@ + msg@);
            }
            let e = invalid_error(m, data, at);
            push_issue(s, e, Ghost(base), Ghost(v), Ghost((Issue::Invalid(m@), *at)), Ghost(data@));
        },
    }
}

/// One setting `key: value` applied to the settings `s`; the action it asks for.
fn apply_setting_exec(
    s: &mut NoteSettings,
    key: &str,
    value: &str,
    at: &Range<usize>,
    data: &str,
    keys: &NoteSettingsKeys,
    Ghost(base): Ghost<NoteSettings>,
    Ghost(v): Ghost<SettingsView>,
) -> (r: Option<NoteImportAction>)
    requires
        settings_match(*old(s), base, v, data@),
    ensures
        settings_match(*final(s), base, apply_setting(v, key@, value@, *at, *keys).0, data@),
        r == apply_setting(v, key@, value@, *at, *keys).1,
{
    if keys.action.matches_read(key) {
        action_exec(s, value, at, data, keys, Ghost(base), Ghost(v))
    } else if keys.tags.matches_read(key) {
        tags_exec(s, value, at, data, Ghost(base), Ghost(v));
        None
    } else if keys.keywords.matches_read(key) {
        keywords_exec(s, value, at, data, Ghost(base), Ghost(v));
        None
    } else if keys.is_suspended.matches_read(key) {
        s.is_suspended = true;
        None
    } else if keys.front_conceal.matches_read(key) {
        conceal_exec(s, value, at, data, true, Ghost(base), Ghost(v));
        None
    } else if keys.back_reveal.matches_read(key) {
        conceal_exec(s, value, at, data, false, Ghost(base), Ghost(v));
        None
    } else if keys.custom_data.matches_read(key) {
        custom_data_exec(s, value, at, data, Ghost(base), Ghost(v));
        None
    } else {
        let jv = crate::notes::json::json_string(value);
        map_insert_exec(&mut s.custom_data, String::from_str(key), jv);
        None
    }
}

/// After each setting, the note id kept under the adapter's key is taken out of the custom
/// data and read: the first valid one is the note's id, and an invalid one is reported.
/// When the parser writes the note id under another key, the note id keys are renamed.
pub open spec fn note_id_step(
    sv: SettingsView,
    temp_id: Option<i64>,
    at: Range<usize>,
    keys: NoteSettingsKeys,
    adapter_name: Seq<char>,
) -> (SettingsView, Option<i64>) {
    let w = spec_write(keys.note_id)@;
    let ak = adapter_note_id_key(adapter_name, w);
    let (custom1, removed) = map_shift_remove(sv.custom, ak);
    let (issues1, id1) = match removed {
        None => (sv.issues, temp_id),
        Some(jv) => {
            let invalid = sv.issues.push((Issue::Invalid("The note id `"@ + jv.text + "` is not valid."@), at));
            match jv.as_str {
                None => (invalid, temp_id),
                Some(text) => match parse_i64(text) {
                    Some(n) => (sv.issues, if temp_id is None {
                        Some(n)
                    } else {
                        temp_id
                    }),
                    None => (invalid, temp_id),
                },
            }
        },
    };
    let custom2 = if w != NOTE_ID_KEY@ {
        map_rename(map_rename(custom1, w, NOTE_ID_KEY@), ak, adapter_name + "-"@ + NOTE_ID_KEY@)
    } else {
        custom1
    };
    (SettingsView { custom: custom2, issues: issues1, ..sv }, id1)
}

proof fn lemma_digits_value_bound(s: Seq<char>, t: Seq<char>)
    requires
        s.len() <= t.len(),
        s == t.take(s.len() as int),
        all_digits(t),
    ensures
        digits_value(s) <= digits_value(t),
    decreases t.len() - s.len(),
{
    if s.len() < t.len() {
        let s2 = t.take(s.len() as int + 1);
        assert(s2.drop_last() =~= s);
        assert(is_digit(t[s.len() as int]));
        assert(s2.last() == t[s.len() as int]);
        let dv = digits_value(s);
        assert(dv <= dv * 10) by (nonlinear_arith);
        assert(digits_value(s) <= digits_value(s2));
        lemma_digits_value_bound(s2, t);
    } else {
        assert(t.take(t.len() as int) =~= t);
    }
}

/// Reads `s` as `str::parse::<i64>` does.
pub fn parse_i64_exec(s: &str) -> (r: Option<i64>)
    ensures
        r == parse_i64(s@),
{
    let v = crate::text::str_chars(s);
    let n = v.len();
    let negative = n > 0 && v[0] == '-';
    let start: usize = if n > 0 && (v[0] == '-' || v[0] == '+') {
        1
    } else {
        0
    };
    let ghost d = v@.skip(start as int);
    proof {
        assert(v@.skip(0) =~= v@);
    }
    let limit: u64 = if negative {
        0x8000_0000_0000_0000
    } else {
        0x7FFF_FFFF_FFFF_FFFF
    };
    if start >= n {
        return None;
    }
    let mut acc: u64 = 0;
    let mut i = start;
    proof {
        assert(v@.subrange(start as int, start as int) =~= Seq::<char>::empty());
    }
    while i < n
        invariant
            start <= i <= n,
            n == v.len(),
            d == v@.skip(start as int),
            all_digits(v@.subrange(start as int, i as int)),
            acc == digits_value(v@.subrange(start as int, i as int)),
            acc <= limit,
            0x7FFF_FFFF_FFFF_FFFF <= limit <= 0x8000_0000_0000_0000,
            negative ==> limit == 0x8000_0000_0000_0000,
            !negative ==> limit == 0x7FFF_FFFF_FFFF_FFFF,
            v@ == s@,
            v@.skip(0) == v@,
            start < n,
            negative == (s@.len() > 0 && s@[0] == '-'),
            start == (if s@.len() > 0 && (s@[0] == '-' || s@[0] == '+') {
                1int
            } else {
                0int
            }),
        decreases n - i,
    {
        let c = v[i];
        let ghost pre = v@.subrange(start as int, i as int);
        proof {
            assert(v@.subrange(start as int, i + 1).drop_last() =~= pre);
        }
        if !('0' <= c && c <= '9') {
            proof {
                assert(d[i - start] == c);
                assert(!is_digit(d[i - start]));
                assert(!all_digits(d));
            }
            return None;
        }
        let digit = (c as u32 - '0' as u32) as u64;
        if acc > (limit - digit) / 10 {
            proof {
                assert(acc * 10 + digit > limit) by (nonlinear_arith)
                    requires
                        acc > (limit - digit) / 10,
                        digit <= 9,
                ;
                let pre1 = v@.subrange(start as int, i + 1);
                assert(pre1.drop_last() =~= pre);
                assert(digits_value(pre1) > limit);
                assert(d.take(i + 1 - start) =~= pre1);
                if all_digits(d) {
                    lemma_digits_value_bound(pre1, d);
                }
            }
            return None;
        }
        proof {
            assert(acc * 10 + digit <= limit) by (nonlinear_arith)
                requires
                    acc <= (limit - digit) / 10,
                    digit <= 9,
            ;
        }
        acc = acc * 10 + digit;
        i += 1;
    }
    proof {
        assert(v@.subrange(start as int, n as int) =~= d);
        assert(d.len() > 0);
    }
    if negative {
        if acc == 0x8000_0000_0000_0000 {
            Some(i64::MIN)
        } else {
            Some(-(acc as i64))
        }
    } else {
        Some(acc as i64)
    }
}

fn note_id_exec(
    s: &mut NoteSettings,
    temp_id: Option<i64>,
    at: &Range<usize>,
    data: &str,
    keys: &NoteSettingsKeys,
    adapter_name: &str,
    adapter_key: &str,
    Ghost(base): Ghost<NoteSettings>,
    Ghost(v): Ghost<SettingsView>,
) -> (r: Option<i64>)
    requires
        settings_match(*old(s), base, v, data@),
        adapter_key@ == adapter_note_id_key(adapter_name@, spec_write(keys.note_id)@),
    ensures
        settings_match(*final(s), base, note_id_step(v, temp_id, *at, *keys, adapter_name@).0, data@),
        r == note_id_step(v, temp_id, *at, *keys, adapter_name@).1,
{
    let removed = map_shift_remove_exec(&mut s.custom_data, adapter_key);
    let ghost v1 = SettingsView { custom: map_shift_remove(v.custom, adapter_key@).0, ..v };
    let mut id = temp_id;
    match removed {
        None => {},
        Some(jv) => {
            let valid = match &jv.as_str {
                Some(text) => match parse_i64_exec(text.as_str()) {
                    Some(n) => {
                        if id.is_none() {
                            id = Some(n);
                        }
                        true
                    },
                    None => false,
                },
                None => false,
            };
            if !valid {
                let msg = message3("The note id `", jv.text.as_str(), "` is not valid.");
                let e = invalid_error(msg, data, at);
                push_issue(s, e, Ghost(base), Ghost(v1), Ghost((Issue::Invalid(msg@), *at)), Ghost(data@));
            }
        },
    }
    let w = keys.note_id.get_write();
    if !crate::clozes::keys::str_eq(w, NOTE_ID_KEY) {
        map_rename_exec(&mut s.custom_data, w, NOTE_ID_KEY);
        let new_key = message3(adapter_name, "-", NOTE_ID_KEY);
        map_rename_exec(&mut s.custom_data, adapter_key, new_key.as_str());
    }
    id
}

/// The state of reading the settings of a note: the note's own settings, the settings
/// shared by all notes (given with the global prefix), the action asked for, and the note's id.
pub struct NoteState {
    pub local: SettingsView,
    pub global: SettingsView,
    pub action: Option<NoteImportAction>,
    pub note_id: Option<i64>,
}

/// One setting of a note: with the global prefix it applies to the shared settings too.
pub open spec fn pair_step(
    st: NoteState,
    key: Seq<char>,
    value: Seq<char>,
    at: Range<usize>,
    keys: NoteSettingsKeys,
    adapter_name: Seq<char>,
) -> NoteState {
    let gp = spec_write(keys.global_settings_prefix)@;
    let is_global = gp.is_prefix_of(key);
    let k = if is_global {
        key.skip(gp.len() as int)
    } else {
        key
    };
    let (local1, a1) = apply_setting(st.local, k, value, at, keys);
    let global1 = if is_global {
        apply_setting(st.global, k, value, at, keys).0
    } else {
        st.global
    };
    let (local2, id) = note_id_step(local1, st.note_id, at, keys, adapter_name);
    NoteState {
        local: local2,
        global: global1,
        action: match a1 {
            Some(a) => Some(a),
            None => st.action,
        },
        note_id: id,
    }
}

pub type PairAt = (Seq<char>, Seq<char>, Range<usize>);

pub open spec fn pairs_fold(
    pairs: Seq<PairAt>,
    n: int,
    init: NoteState,
    keys: NoteSettingsKeys,
    adapter_name: Seq<char>,
) -> NoteState
    decreases n,
{
    if n <= 0 {
        init
    } else {
        let p = pairs[n - 1];
        pair_step(pairs_fold(pairs, n - 1, init, keys, adapter_name), p.0, p.1, p.2, keys, adapter_name)
    }
}

/// The note's own settings once all settings are read: the action and the note id must
/// agree.
pub open spec fn finish(st: NoteState, note_capture: Range<usize>) -> SettingsView {
    let l = st.local;
    match (st.action, st.note_id) {
        (Some(NoteImportAction::Add), Some(_)) => with_issue(
            l,
            Issue::Warning("Note id is not needed for adding a note."@),
            note_capture,
        ),
        (Some(NoteImportAction::Update(_)), None) => with_issue(
            l,
            Issue::Invalid("Note id is needed for editing a note."@),
            note_capture,
        ),
        (Some(NoteImportAction::Delete(_)), None) => with_issue(
            l,
            Issue::Invalid("Note id is needed for deleting a note."@),
            note_capture,
        ),
        (Some(NoteImportAction::Delete(_)), Some(id)) => SettingsView { action: NoteImportAction::Delete(id), ..l },
        (_, Some(id)) => SettingsView { action: NoteImportAction::Update(id), ..l },
        (_, None) => l,
    }
}

/// The settings pairs of the settings strings at the byte ranges `ranges` of `data`, each
/// with its range; the first range with a piece that is not a pair, if any.
pub open spec fn collect_note_pairs(data: Seq<char>, ranges: Seq<Range<usize>>, n: int, keys: NoteSettingsKeys) -> Result<
    Seq<PairAt>,
    Range<usize>,
>
    decreases n,
{
    if n <= 0 {
        Ok(Seq::empty())
    } else {
        match collect_note_pairs(data, ranges, n - 1, keys) {
            Err(r) => Err(r),
            Ok(ps) => {
                let r = ranges[n - 1];
                let rp = crate::clozes::pairs::settings_pairs(
                    crate::text::text_between(data, r.start as int, r.end as int),
                    keys.settings_delim@,
                    keys.settings_key_value_delim@,
                );
                if crate::clozes::parse::all_pairs(rp) {
                    Ok(ps + crate::clozes::parse::unwrap_pairs(rp).map_values(|p: (Seq<char>, Seq<char>)| (p.0, p.1, r)))
                } else {
                    Err(r)
                }
            },
        }
    }
}

pub open spec fn pairs_at_view(v: Seq<(String, String, Range<usize>)>) -> Seq<PairAt> {
    v.map_values(|p: (String, String, Range<usize>)| (p.0@, p.1@, p.2))
}

/// The settings strings are at byte ranges of `data` that start and end at chars.
pub open spec fn valid_ranges(data: Seq<char>, ranges: Seq<Range<usize>>) -> bool {
    forall|i: int|
        0 <= i < ranges.len() ==> (#[trigger] ranges[i]).start <= ranges[i].end && crate::clozes::pairs::is_char_start(
            data,
            ranges[i].start as int,
        ) && crate::clozes::pairs::is_char_start(data, ranges[i].end as int)
}

fn collect_pairs_exec(data: &str, ranges: &[Range<usize>], keys: &NoteSettingsKeys) -> (r: Result<
    Vec<(String, String, Range<usize>)>,
    Range<usize>,
>)
    requires
        valid_ranges(data@, ranges@),
        keys.settings_delim@.len() > 0,
    ensures
        match (r, collect_note_pairs(data@, ranges@, ranges@.len() as int, *keys)) {
            (Ok(v), Ok(ps)) => pairs_at_view(v@) == ps,
            (Err(a), Err(b)) => a == b,
            _ => false,
        },
{
    let mut out: Vec<(String, String, Range<usize>)> = Vec::new();
    let mut i: usize = 0;
    proof {
        assert(pairs_at_view(out@) =~= Seq::<PairAt>::empty());
    }
    while i < ranges.len()
        invariant
            0 <= i <= ranges.len(),
            valid_ranges(data@, ranges@),
            keys.settings_delim@.len() > 0,
            collect_note_pairs(data@, ranges@, i as int, *keys) == Ok::<Seq<PairAt>, Range<usize>>(pairs_at_view(out@)),
        decreases ranges.len() - i,
    {
        let r = Range { start: ranges[i].start, end: ranges[i].end };
        proof {
            assert(r == ranges@[i as int]);
        }
        let found = crate::clozes::pairs::get_settings_pairs(data, &r, keys.settings_delim, keys.settings_key_value_delim);
        let ghost rp = crate::clozes::pairs::settings_pairs(
            crate::text::text_between(data@, r.start as int, r.end as int),
            keys.settings_delim@,
            keys.settings_key_value_delim@,
        );
        proof {
            let (lo, hi) = choose|lo: int, hi: int|
                0 <= lo <= hi <= data@.len() && crate::text::byte_offset(data@, lo) == r.start
                    && crate::text::byte_offset(data@, hi) == r.end && {
                    let pairs = crate::clozes::pairs::settings_pairs(
                        data@.subrange(lo, hi),
                        keys.settings_delim@,
                        keys.settings_key_value_delim@,
                    );
                    &&& found.len() == pairs.len()
                    &&& forall|k: int| 0 <= k < found.len() ==> match #[trigger] found@[k] {
                        Ok((kk, vv)) => pairs[k] == Some((kk@, vv@)),
                        Err((msg, at)) => pairs[k] is None && msg@ == crate::clozes::pairs::not_a_pair_message() && at == r,
                    }
                };
            crate::text::lemma_char_index_at_byte(data@, lo);
            crate::text::lemma_char_index_at_byte(data@, hi);
            assert(rp == crate::clozes::pairs::settings_pairs(
                data@.subrange(lo, hi),
                keys.settings_delim@,
                keys.settings_key_value_delim@,
            ));
        }
        let ghost before = pairs_at_view(out@);
        let mut j: usize = 0;
        while j < found.len()
            invariant
                0 <= j <= found.len(),
                0 <= i < ranges.len(),
                r == ranges@[i as int],
                collect_note_pairs(data@, ranges@, i as int, *keys) == Ok::<Seq<PairAt>, Range<usize>>(before),
                rp == crate::clozes::pairs::settings_pairs(
                    crate::text::text_between(data@, r.start as int, r.end as int),
                    keys.settings_delim@,
                    keys.settings_key_value_delim@,
                ),
                found.len() == rp.len(),
                forall|k: int| 0 <= k < found.len() ==> match #[trigger] found@[k] {
                    Ok((kk, vv)) => rp[k] == Some((kk@, vv@)),
                    Err(_) => rp[k] is None,
                },
                forall|k: int| 0 <= k < j ==> (#[trigger] rp[k]) is Some,
                pairs_at_view(out@) == before + crate::clozes::parse::unwrap_pairs(rp.take(j as int)).map_values(
                    |p: (Seq<char>, Seq<char>)| (p.0, p.1, r),
                ),
            decreases found.len() - j,
        {
            match &found[j] {
                Ok((k, v)) => {
                    let ghost o = out@;
                    out.push((k.clone(), v.clone(), Range { start: r.start, end: r.end }));
                    proof {
                        assert(rp.take(j + 1) =~= rp.take(j as int).push(rp[j as int]));
                        assert(pairs_at_view(out@) =~= pairs_at_view(o).push((k@, v@, r)));
                        assert(crate::clozes::parse::unwrap_pairs(rp.take(j + 1)).map_values(
                            |p: (Seq<char>, Seq<char>)| (p.0, p.1, r),
                        ) =~= crate::clozes::parse::unwrap_pairs(rp.take(j as int)).map_values(
                            |p: (Seq<char>, Seq<char>)| (p.0, p.1, r),
                        ).push((k@, v@, r)));
                    }
                },
                Err(_) => {
                    proof {
                        assert(!crate::clozes::parse::all_pairs(rp));
                        lemma_collect_error_persists(data@, ranges@, *keys, i as int + 1);
                    }
                    return Err(r);
                },
            }
            j += 1;
        }
        proof {
            assert(rp.take(found.len() as int) =~= rp);
            assert(crate::clozes::parse::all_pairs(rp));
        }
        i += 1;
    }
    Ok(out)
}

proof fn lemma_collect_error_persists(data: Seq<char>, ranges: Seq<Range<usize>>, keys: NoteSettingsKeys, n: int)
    requires
        0 <= n <= ranges.len(),
        collect_note_pairs(data, ranges, n, keys) is Err,
    ensures
        collect_note_pairs(data, ranges, ranges.len() as int, keys) == collect_note_pairs(data, ranges, n, keys),
    decreases ranges.len() - n,
{
    if n < ranges.len() {
        lemma_collect_error_persists(data, ranges, keys, n + 1);
    }
}

/// The state before any setting of a note is read.
pub open spec fn initial_state(local: NoteSettings, global: NoteSettings) -> NoteState {
    NoteState { local: initial_view(local), global: initial_view(global), action: None, note_id: None }
}

/// What reading the settings strings at `ranges` of `data` makes of a note's settings
/// (`old_local` to `new_local`) and of the settings shared by all notes (`old_global` to
/// `new_global`): a string with a piece that is not a `key: value` pair is refused and
/// leaves the shared settings as they were; otherwise each pair is applied in order.
pub open spec fn note_settings_outcome(
    keys: NoteSettingsKeys,
    data: Seq<char>,
    ranges: Seq<Range<usize>>,
    old_global: NoteSettings,
    old_local: NoteSettings,
    new_global: NoteSettings,
    new_local: NoteSettings,
    adapter_name: Seq<char>,
    note_capture: Range<usize>,
) -> bool {
    match collect_note_pairs(data, ranges, ranges.len() as int, keys) {
        Err(r) => {
            &&& settings_match(
                new_local,
                old_local,
                with_issue(initial_view(old_local), Issue::Invalid(crate::clozes::pairs::not_a_pair_message()), r),
                data,
            )
            &&& new_global == old_global
        },
        Ok(pairs) => {
            let st = pairs_fold(pairs, pairs.len() as int, initial_state(old_local, old_global), keys, adapter_name);
            &&& settings_match(new_local, old_local, finish(st, note_capture), data)
            &&& settings_match(new_global, old_global, st.global, data)
        },
    }
}

/// Reads the settings strings at the byte ranges `all_settings_indices` of the note text
/// `data` into the note's own settings (`local_settings`) and, for settings given with the
/// global prefix, into the settings shared by all notes (`global_settings`). Problems are
/// appended to the errors and warnings of the settings they concern. A settings string with
/// a piece that is not a `key: value` pair stops the reading with an error. The action and
/// the note id (kept under the key of the adapter named `adapter_name`) must agree;
/// `note_capture` is the range of the note, for the errors about them.
pub fn parse_note_settings(
    note_settings_keys: &NoteSettingsKeys,
    data: &str,
    all_settings_indices: &[Range<usize>],
    global_settings: &mut NoteSettings,
    local_settings: &mut NoteSettings,
    adapter_name: &str,
    note_capture: &Range<usize>,
)
    requires
        valid_ranges(data@, all_settings_indices@),
        note_settings_keys.settings_delim@.len() > 0,
    ensures
        note_settings_outcome(
            *note_settings_keys,
            data@,
            all_settings_indices@,
            *old(global_settings),
            *old(local_settings),
            *final(global_settings),
            *final(local_settings),
            adapter_name@,
            *note_capture,
        ),
{
    let keys = note_settings_keys;
    let ghost lbase = *local_settings;
    let ghost gbase = *global_settings;
    proof {
        lemma_initial_match(lbase, data@);
        lemma_initial_match(gbase, data@);
    }
    let pairs = match collect_pairs_exec(data, all_settings_indices, keys) {
        Err(r) => {
            let msg = String::from_str("Found 1 parts when processing settings. Expected 2 parts.");
            proof {
                reveal_strlit("Found 1 parts when processing settings. Expected 2 parts.");
            }
            let e = invalid_error(msg, data, &r);
            push_issue(local_settings, e, Ghost(lbase), Ghost(initial_view(lbase)), Ghost((Issue::Invalid(msg@), r)), Ghost(data@));
            return;
        },
        Ok(p) => p,
    };
    let ghost pv = pairs_at_view(pairs@);
    let w = keys.note_id.get_write();
    let adapter_key = if crate::clozes::keys::str_eq(adapter_name, DEFAULT_ADAPTER_NAME) {
        String::from_str(w)
    } else {
        message3(adapter_name, "-", w)
    };
    let gp = crate::text::str_chars(keys.global_settings_prefix.get_write());
    let mut temp_action: Option<NoteImportAction> = None;
    let mut temp_id: Option<i64> = None;
    let ghost init = initial_state(lbase, gbase);
    let ghost mut st = init;
    let mut i: usize = 0;
    while i < pairs.len()
        invariant
            0 <= i <= pairs.len(),
            pv == pairs_at_view(pairs@),
            adapter_key@ == adapter_note_id_key(adapter_name@, spec_write(keys.note_id)@),
            gp@ == spec_write(keys.global_settings_prefix)@,
            st == pairs_fold(pv, i as int, init, *keys, adapter_name@),
            settings_match(*local_settings, lbase, st.local, data@),
            settings_match(*global_settings, gbase, st.global, data@),
            temp_action == st.action,
            temp_id == st.note_id,
        decreases pairs.len() - i,
    {
        let key = crate::text::str_chars(pairs[i].0.as_str());
        let value = pairs[i].1.as_str();
        let at = &pairs[i].2;
        let ghost p = pv[i as int];
        let is_global = gp.len() <= key.len() && crate::text::range_equals(&key, 0, gp.len(), &gp);
        let k = if is_global {
            crate::text::substring(&key, gp.len(), key.len())
        } else {
            crate::text::substring(&key, 0, key.len())
        };
        proof {
            assert(key@ == p.0);
            assert(is_global == gp@.is_prefix_of(p.0));
            if is_global {
                assert(k@ == p.0.skip(gp@.len() as int));
            } else {
                assert(key@.subrange(0, key@.len() as int) =~= key@);
            }
        }
        let a = apply_setting_exec(local_settings, k.as_str(), value, at, data, keys, Ghost(lbase), Ghost(st.local));
        if is_global {
            apply_setting_exec(global_settings, k.as_str(), value, at, data, keys, Ghost(gbase), Ghost(st.global));
        }
        if a.is_some() {
            temp_action = a;
        }
        let ghost local1 = apply_setting(st.local, k@, value@, *at, *keys).0;
        temp_id = note_id_exec(
            local_settings,
            temp_id,
            at,
            data,
            keys,
            adapter_name,
            adapter_key.as_str(),
            Ghost(lbase),
            Ghost(local1),
        );
        proof {
            st = pair_step(st, p.0, p.1, p.2, *keys, adapter_name@);
        }
        i += 1;
    }
    let ghost lv = st.local;
    match (temp_action, temp_id) {
        (Some(NoteImportAction::Add), Some(_)) => {
            let msg = String::from_str("Note id is not needed for adding a note.");
            proof {
                reveal_strlit("Note id is not needed for adding a note.");
            }
            let e = warning_error(msg, data, note_capture);
            push_issue(local_settings, e, Ghost(lbase), Ghost(lv), Ghost((Issue::Warning(msg@), *note_capture)), Ghost(data@));
        },
        (Some(NoteImportAction::Update(_)), None) => {
            let msg = String::from_str("Note id is needed for editing a note.");
            proof {
                reveal_strlit("Note id is needed for editing a note.");
            }
            let e = invalid_error(msg, data, note_capture);
            push_issue(local_settings, e, Ghost(lbase), Ghost(lv), Ghost((Issue::Invalid(msg@), *note_capture)), Ghost(data@));
        },
        (Some(NoteImportAction::Delete(_)), None) => {
            let msg = String::from_str("Note id is needed for deleting a note.");
            proof {
                reveal_strlit("Note id is needed for deleting a note.");
            }
            let e = invalid_error(msg, data, note_capture);
            push_issue(local_settings, e, Ghost(lbase), Ghost(lv), Ghost((Issue::Invalid(msg@), *note_capture)), Ghost(data@));
        },
        (Some(NoteImportAction::Delete(_)), Some(id)) => {
            local_settings.action = NoteImportAction::Delete(id);
        },
        (_, Some(id)) => {
            local_settings.action = NoteImportAction::Update(id);
        },
        (_, None) => {},
    }
}

} // verus!
