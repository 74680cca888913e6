//! The settings of each note of a file: settings are read in order, each note taking those
//! before it, and settings given with the global prefix carry over to the notes after.

use crate::clozes::keys::{NoteImportAction, NoteSettingsKeys, RegexMatch};
use crate::clozes::{BackReveal, FrontConceal};
use crate::files::{capture_ranges, lemma_split_parts, note_settings_ranges, settings_split, NoteRawData};
use crate::notes::json::JsonValue;
use crate::notes::lists::strings_view;
use crate::notes::settings::{copy_json, initial_view, note_settings_outcome, parse_note_settings, valid_ranges, NoteSettings};
use crate::clozes::pairs::is_char_start;
use crate::error::{LibraryError, NoteErrorKind};
use crate::text::{find_from, find_in, str_chars, substring, text_at, text_between, trim, trim_range};
use std::ops::Range;
use vstd::prelude::*;

verus! {

/// The settings before any setting is read.
pub open spec fn fresh_settings(s: NoteSettings) -> bool {
    &&& s.action == NoteImportAction::Add
    &&& s.tags@.len() == 0
    &&& s.keywords@.len() == 0
    &&& !s.is_suspended
    &&& s.front_conceal == FrontConceal::OnlyGrouping
    &&& s.back_reveal == BackReveal::FullNote
    &&& s.custom_data@.len() == 0
    &&& s.linked_notes@.len() == 0
    &&& s.errors_and_warnings@.len() == 0
    &&& s.cards_count is None
}

/// The settings a note starts from: those shared by the notes so far, without their
/// problems.
pub open spec fn starts_from(local: NoteSettings, global: NoteSettings) -> bool {
    &&& initial_view(local) == initial_view(global)
    &&& local.errors_and_warnings@.len() == 0
    &&& strings_view(local.linked_notes@) == strings_view(global.linked_notes@)
    &&& local.cards_count == global.cards_count
}

/// The settings of the notes `notes` of `data` are `r`: the shared settings go through
/// `gs` and each note starts from `starts`; the `k`-th note reads the settings it takes
/// (`settings_split`) from its start and the shared settings so far.
pub open spec fn settings_chain(
    keys: NoteSettingsKeys,
    data: Seq<char>,
    settings: Seq<RegexMatch>,
    notes: Seq<NoteRawData>,
    adapter_name: Seq<char>,
    gs: Seq<NoteSettings>,
    starts: Seq<NoteSettings>,
    r: Seq<NoteSettings>,
    n: int,
) -> bool {
    let parts = settings_split(settings, notes, notes.len() as int).0;
    &&& gs.len() == n + 1
    &&& starts.len() == n
    &&& r.len() == n
    &&& fresh_settings(gs[0])
    &&& forall|k: int|
        0 <= k < n ==> starts_from(#[trigger] starts[k], gs[k]) && note_settings_outcome(
            keys,
            data,
            parts[k],
            gs[k],
            starts[k],
            gs[k + 1],
            r[k],
            adapter_name,
            notes[k].data,
        )
}

fn copy_strings(v: &Vec<String>) -> (r: Vec<String>)
    ensures
        r@ == v@,
{
    let mut out: Vec<String> = Vec::new();
    let mut i: usize = 0;
    while i < v.len()
        invariant
            0 <= i <= v.len(),
            out@ == v@.take(i as int),
        decreases v.len() - i,
    {
        out.push(v[i].clone());
        proof {
            assert(v@.take(i + 1) =~= v@.take(i as int).push(v@[i as int]));
        }
        i += 1;
    }
    proof {
        assert(v@.take(v.len() as int) =~= v@);
    }
    out
}

fn copy_entries(v: &Vec<(String, JsonValue)>) -> (r: Vec<(String, JsonValue)>)
    ensures
        r@ == v@,
{
    let mut out: Vec<(String, JsonValue)> = Vec::new();
    let mut i: usize = 0;
    while i < v.len()
        invariant
            0 <= i <= v.len(),
            out@ == v@.take(i as int),
        decreases v.len() - i,
    {
        out.push((v[i].0.clone(), copy_json(&v[i].1)));
        proof {
            assert(v@.take(i + 1) =~= v@.take(i as int).push(v@[i as int]));
        }
        i += 1;
    }
    proof {
        assert(v@.take(v.len() as int) =~= v@);
    }
    out
}

/// The settings a note starts from.
fn start_settings(global: &NoteSettings) -> (r: NoteSettings)
    ensures
        starts_from(r, *global),
{
    NoteSettings {
        action: global.action,
        tags: copy_strings(&global.tags),
        keywords: copy_strings(&global.keywords),
        is_suspended: global.is_suspended,
        front_conceal: global.front_conceal,
        back_reveal: global.back_reveal,
        custom_data: copy_entries(&global.custom_data),
        linked_notes: copy_strings(&global.linked_notes),
        errors_and_warnings: Vec::new(),
        cards_count: global.cards_count,
    }
}

/// The settings of each note of a file, found at `notes`, from the settings found at
/// `settings`: each note takes the settings not taken yet that end before it starts, and
/// reads them from the settings shared by the notes before it; settings given with the
/// global prefix are shared with the notes after it.
pub fn notes_settings(
    note_settings_keys: &NoteSettingsKeys,
    data: &str,
    notes: &Vec<NoteRawData>,
    settings: &Vec<RegexMatch>,
    adapter_name: &str,
) -> (r: Vec<NoteSettings>)
    requires
        valid_ranges(data@, capture_ranges(settings@)),
        note_settings_keys.settings_delim@.len() > 0,
    ensures
        exists|gs: Seq<NoteSettings>, starts: Seq<NoteSettings>|
            #[trigger] settings_chain(
                *note_settings_keys,
                data@,
                settings@,
                notes@,
                adapter_name@,
                gs,
                starts,
                r@,
                notes@.len() as int,
            ),
{
    let split = note_settings_ranges(settings, notes);
    let ghost parts = settings_split(settings@, notes@, notes@.len() as int).0;
    proof {
        lemma_split_parts(settings@, notes@, notes@.len() as int);
    }
    let mut global = NoteSettings::default();
    let ghost mut gs: Seq<NoteSettings> = seq![global];
    let ghost mut starts: Seq<NoteSettings> = Seq::empty();
    let mut out: Vec<NoteSettings> = Vec::new();
    let mut k: usize = 0;
    while k < notes.len()
        invariant
            0 <= k <= notes.len(),
            split@.map_values(|v: Vec<Range<usize>>| v@) == parts,
            parts == settings_split(settings@, notes@, notes@.len() as int).0,
            parts.len() == notes.len(),
            forall|i: int, m: int|
                0 <= i < notes.len() && 0 <= m < parts[i].len() ==> exists|t: int|
                    0 <= t < settings@.len() && #[trigger] parts[i][m] == settings@[t].capture_range,
            valid_ranges(data@, capture_ranges(settings@)),
            note_settings_keys.settings_delim@.len() > 0,
            gs.last() == global,
            settings_chain(*note_settings_keys, data@, settings@, notes@, adapter_name@, gs, starts, out@, k as int),
        decreases notes.len() - k,
    {
        let mut local = start_settings(&global);
        let ghost g0 = global;
        let ghost l0 = local;
        assert(split@[k as int]@ == parts[k as int]);
        assert forall|i: int| 0 <= i < split@[k as int]@.len() implies {
            let r = #[trigger] split@[k as int]@[i];
            r.start <= r.end && crate::clozes::pairs::is_char_start(data@, r.start as int)
                && crate::clozes::pairs::is_char_start(data@, r.end as int)
        } by {
            let t = choose|t: int| 0 <= t < settings@.len() && parts[k as int][i] == settings@[t].capture_range;
            assert(capture_ranges(settings@)[t] == settings@[t].capture_range);
        }
        parse_note_settings(
            note_settings_keys,
            data,
            split[k].as_slice(),
            &mut global,
            &mut local,
            adapter_name,
            &notes[k].data,
        );
        let ghost old_out = out@;
        let ghost old_gs = gs;
        let ghost old_starts = starts;
        out.push(local);
        proof {
            gs = gs.push(global);
            starts = starts.push(l0);
            assert forall|j: int| 0 <= j < k + 1 implies starts_from(#[trigger] starts[j], gs[j]) && note_settings_outcome(
                *note_settings_keys,
                data@,
                parts[j],
                gs[j],
                starts[j],
                gs[j + 1],
                out@[j],
                adapter_name@,
                notes@[j].data,
            ) by {
                if j < k {
                    assert(starts[j] == old_starts[j]);
                    assert(gs[j] == old_gs[j] && gs[j + 1] == old_gs[j + 1]);
                    assert(out@[j] == old_out[j]);
                } else {
                    assert(gs[j] == g0);
                }
            }
        }
        k += 1;
    }
    proof {
        assert(settings_chain(*note_settings_keys, data@, settings@, notes@, adapter_name@, gs, starts, out@, notes@.len() as int));
    }
    out
}

/// The warning given for a note whose text still holds `TODO`.
pub open spec fn todo_warning(e: LibraryError, full_data: Seq<char>, at: Range<usize>) -> bool {
    e matches LibraryError::Note(NoteErrorKind::SettingsWarning { description, src, at: w })
        && description@ == "The field `data` contains TODO."@ && src@ == full_data && w == at
}

/// The text of a note: the part of the file at `at`, trimmed, with a warning when that part
/// still holds `TODO`.
pub fn note_body(full_data: &str, at: &Range<usize>) -> (r: (String, Option<LibraryError>))
    requires
        at.start <= at.end,
        is_char_start(full_data@, at.start as int),
        is_char_start(full_data@, at.end as int),
    ensures
        r.0@ == trim(text_between(full_data@, at.start as int, at.end as int)),
        match r.1 {
            Some(e) => find_from(text_between(full_data@, at.start as int, at.end as int), "TODO"@, 0) is Some
                && todo_warning(e, full_data@, *at),
            None => find_from(text_between(full_data@, at.start as int, at.end as int), "TODO"@, 0) is None,
        },
{
    let v = str_chars(full_data);
    let data = text_at(&v, at.start, at.end);
    let dv = str_chars(data.as_str());
    let todo = str_chars("TODO");
    let found = find_in(&dv, 0, dv.len(), &todo, 0);
    proof {
        assert(dv@.subrange(0, dv.len() as int) =~= dv@);
    }
    let warning = match found {
        Some(_) => Some(
            LibraryError::Note(
                NoteErrorKind::SettingsWarning {
                    description: String::from_str("The field `data` contains TODO."),
                    src: full_data.to_string(),
                    at: Range { start: at.start, end: at.end },
                },
            ),
        ),
        None => None,
    };
    let (a, b) = trim_range(&dv, 0, dv.len());
    (substring(&dv, a, b), warning)
}

} // verus!
