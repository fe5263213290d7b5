//! The viewer's state and the decisions it takes: loading, filtering,
//! statistics, paging and the choices offered by its views.

use vstd::prelude::*;
use std::path::PathBuf;
use crate::filter::{build_error_text, filter_matches, tree_builds, PropertyFilter};
use crate::json::{JsonNode, JsonValue};
use crate::level::{count_level, law_level_counts_reorder, lemma_reverse_multiset, rank, short_of, Level, LevelStats};
use crate::record::{build_template_summary, law_summary_reorder, record_key, summary_correct, summary_key, LogRecord, TemplateSummary};
use crate::text::{chars_contain, chars_of, contains_text, decimal, decimal_text, lowercase, push_str, same_text, string_of, to_lowercase, trim, trimmed};
use crate::time::{before, is_before, local_reading, representable, resolves, DateFilter, LocalDateTime, UtcInstant};

verus! {

#[verifier::external_type_specification]
#[verifier::external_body]
pub struct ExPathBuf(PathBuf);

/// The view shown in the main panel.
#[derive(Clone, Copy, Debug, PartialEq, Eq, Structural)]
pub enum Tab {
    Logs,
    Templates,
}

/// Whether a file is being read in the background.
#[derive(Clone, Copy, Debug, PartialEq, Eq, Structural)]
pub enum LoadState {
    Idle,
    Loading,
}

/// The order in which filtered records are listed.
#[derive(Clone, Copy, Debug, PartialEq, Eq, Structural)]
pub enum SortOrder {
    Asc,
    Desc,
}

/// What a background load has produced when the viewer looks.
pub enum LoadOutcome {
    /// The records of the file.
    Received(Vec<LogRecord>),
    /// Nothing yet.
    Pending,
    /// The loader ended without records.
    Disconnected,
}

/// The viewer's state.
pub struct App {
    pub records: Vec<LogRecord>,
    /// Indices into `records` of the records that pass the filters, in
    /// listing order.
    pub filtered: Vec<usize>,
    pub search: String,
    /// Which levels are shown, indexed by `rank`.
    pub level_filters: [bool; 7],
    pub time_from: DateFilter,
    pub time_to: DateFilter,
    pub expanded: Option<usize>,
    pub file_path: Option<PathBuf>,
    pub status: String,
    pub stats: LevelStats,
    pub page: usize,
    pub page_size: usize,
    pub tab: Tab,
    pub template_summary: Vec<TemplateSummary>,
    pub template_search: String,
    pub template_filter: Option<String>,
    pub property_filter: String,
    pub compiled_pf: Option<PropertyFilter>,
    pub pf_error: Option<String>,
    pub sort_order: SortOrder,
    pub load_state: LoadState,
    pub pending_path: Option<PathBuf>,
}

/// What records must satisfy to be listed.
pub ghost struct Criteria {
    /// Which levels are shown, by rank.
    pub levels: Seq<bool>,
    /// Records stamped before this instant are hidden.
    pub from: Option<UtcInstant>,
    /// Records stamped after this instant are hidden.
    pub to: Option<UtcInstant>,
    /// Only records with this summary key are shown.
    pub template: Option<Seq<char>>,
    /// The lowercased search text; empty shows everything.
    pub search: Seq<char>,
    /// The source of the compiled property filter, if any.
    pub property: Option<Seq<char>>,
}

/// Whether the lowercased search text occurs in any of the record's texts,
/// compared in lowercase.
pub open spec fn search_hit(r: LogRecord, sl: Seq<char>) -> bool {
    ||| contains_text(lowercase(r.message@), sl)
    ||| contains_text(lowercase(r.template@), sl)
    ||| contains_text(lowercase(r.timestamp_local@), sl)
    ||| contains_text(lowercase(r.exception@), sl)
    ||| contains_text(lowercase(r.raw.text@), sl)
}

/// Whether a record passes the criteria.
pub open spec fn passes(c: Criteria, r: LogRecord) -> bool {
    &&& c.levels[rank(r.level)]
    &&& !(c.from is Some && r.dt_utc is Some && before(r.dt_utc->0, c.from->0))
    &&& !(c.to is Some && r.dt_utc is Some && before(c.to->0, r.dt_utc->0))
    &&& (c.template matches Some(k) ==> summary_key(r) == k)
    &&& (c.search.len() > 0 ==> search_hit(r, c.search))
    &&& (c.property matches Some(e) ==> filter_matches(e, r.raw))
}

/// The indices below `n` of the records that pass, in increasing order.
pub open spec fn selected(c: Criteria, records: Seq<LogRecord>, n: int) -> Seq<usize>
    decreases n,
{
    if n <= 0 {
        Seq::empty()
    } else if passes(c, records[n - 1]) {
        selected(c, records, n - 1).push((n - 1) as usize)
    } else {
        selected(c, records, n - 1)
    }
}

/// The criteria of the viewer's state, with the time range resolved to the
/// instants `from` and `to`.
pub open spec fn criteria_of(app: App, from: Option<UtcInstant>, to: Option<UtcInstant>) -> Criteria {
    Criteria {
        levels: app.level_filters@,
        from,
        to,
        template: match app.template_filter {
            Some(t) => Some(t@),
            None => None,
        },
        search: lowercase(app.search@),
        property: match app.compiled_pf {
            Some(pf) => Some(pf@),
            None => None,
        },
    }
}

/// The number of pages `n` records take, `page_size` to a page (at least one).
pub open spec fn page_count(n: int, page_size: int) -> int {
    if n == 0 {
        1
    } else {
        (n + page_size - 1) / page_size
    }
}

/// The viewer's state is usable: pages hold at least one record, and the
/// page count of the records, `(len + page_size - 1) / page_size`, can be
/// computed without overflow.
pub open spec fn app_wf(app: App) -> bool {
    &&& app.page_size > 0
    &&& app.records.len() + app.page_size - 1 <= usize::MAX
}

/// `new` differs from `old` at most in the filtered list, the statistics,
/// the template summary and the page.
pub open spec fn same_settings(old: App, new: App) -> bool {
    &&& new.records == old.records
    &&& new.search == old.search
    &&& new.level_filters == old.level_filters
    &&& new.time_from == old.time_from
    &&& new.time_to == old.time_to
    &&& new.expanded == old.expanded
    &&& new.file_path == old.file_path
    &&& new.status == old.status
    &&& new.page_size == old.page_size
    &&& new.tab == old.tab
    &&& new.template_search == old.template_search
    &&& new.template_filter == old.template_filter
    &&& new.property_filter == old.property_filter
    &&& new.compiled_pf == old.compiled_pf
    &&& new.pf_error == old.pf_error
    &&& new.sort_order == old.sort_order
    &&& new.load_state == old.load_state
    &&& new.pending_path == old.pending_path
}

/// `new` is `old` refiltered with the time range resolved to `from`/`to`:
/// the passing records in increasing (or, sorted descending, decreasing)
/// order, their level counts and template summary, and the page moved back
/// onto the last page when it lies beyond it.
pub open spec fn refiltered(old: App, new: App, from: Option<UtcInstant>, to: Option<UtcInstant>) -> bool {
    let asc = selected(criteria_of(old, from, to), old.records@, old.records@.len() as int);
    let pages = page_count(new.filtered@.len() as int, old.page_size as int);
    &&& same_settings(old, new)
    &&& new.filtered@ == if old.sort_order == SortOrder::Desc { asc.reverse() } else { asc }
    &&& forall|l: crate::level::Level| new.stats.counts@[rank(l)] == count_level(old.records@, new.filtered@, l)
    &&& summary_correct(old.records@, new.filtered@, new.template_summary@)
    &&& new.page == if old.page >= pages { pages - 1 } else { old.page as int }
}

/// The filters of `app` are applied, with the time range resolved to
/// `from`/`to`: the listed records, their level counts and their template
/// summary are those the criteria select.
pub open spec fn filters_applied(app: App, from: Option<UtcInstant>, to: Option<UtcInstant>) -> bool {
    let asc = selected(criteria_of(app, from, to), app.records@, app.records@.len() as int);
    &&& app.filtered@ == if app.sort_order == SortOrder::Desc { asc.reverse() } else { asc }
    &&& forall|l: Level| app.stats.counts@[rank(l)] == count_level(app.records@, app.filtered@, l)
    &&& summary_correct(app.records@, app.filtered@, app.template_summary@)
}

/// Whether `from`/`to` are instants the time filters of `app` can resolve
/// to (see `resolves`).
pub open spec fn bounds_of(app: App, from: Option<UtcInstant>, to: Option<UtcInstant>) -> bool {
    &&& resolves(app.time_from, from)
    &&& resolves(app.time_to, to)
}

/// Law: refiltering leaves the filters applied to the new state.
pub proof fn law_refiltered_is_applied(old: App, new: App, from: Option<UtcInstant>, to: Option<UtcInstant>)
    requires
        refiltered(old, new, from, to),
    ensures
        filters_applied(new, from, to),
{
    assert(criteria_of(new, from, to) == criteria_of(old, from, to));
}

/// The selected indices lie below `n` and increase.
proof fn lemma_selected_bounds(c: Criteria, records: Seq<LogRecord>, n: int)
    requires
        0 <= n <= records.len(),
    ensures
        selected(c, records, n).len() <= n,
        forall|p: int| 0 <= p < selected(c, records, n).len() ==> #[trigger] selected(c, records, n)[p] < n,
    decreases n,
{
    if n > 0 {
        lemma_selected_bounds(c, records, n - 1);
    }
}

impl App {
    /// Whether the record passes the filters, with the time range resolved
    /// to `from`/`to` and the lowercased search text `sl`.
    fn record_passes(&self, r: &LogRecord, from: &Option<UtcInstant>, to: &Option<UtcInstant>, sl: &Vec<char>) -> (b: bool)
        requires
            sl@ == lowercase(self.search@),
        ensures
            b == passes(criteria_of(*self, *from, *to), *r),
    {
        if !self.level_filters[r.level.index()] {
            return false;
        }
        if let Some(f) = from {
            if let Some(dt) = &r.dt_utc {
                if is_before(dt, f) {
                    return false;
                }
            }
        }
        if let Some(t) = to {
            if let Some(dt) = &r.dt_utc {
                if is_before(t, dt) {
                    return false;
                }
            }
        }
        if let Some(k) = &self.template_filter {
            let key = record_key(r);
            if !same_text(&key, k.as_str()) {
                return false;
            }
        }
        if sl.len() > 0 {
            let hit = chars_contain(&chars_of(to_lowercase(r.message.as_str()).as_str()), sl)
                || chars_contain(&chars_of(to_lowercase(r.template.as_str()).as_str()), sl)
                || chars_contain(&chars_of(to_lowercase(r.timestamp_local.as_str()).as_str()), sl)
                || chars_contain(&chars_of(to_lowercase(r.exception.as_str()).as_str()), sl)
                || chars_contain(&chars_of(to_lowercase(r.raw.text.as_str()).as_str()), sl);
            if !hit {
                return false;
            }
        }
        if let Some(pf) = &self.compiled_pf {
            if !pf.matches(&r.raw) {
                return false;
            }
        }
        true
    }

    /// Refilters the records with the time range resolved to `from`/`to`
    /// (see `refiltered`).
    pub fn filter_with_bounds(&mut self, from: Option<UtcInstant>, to: Option<UtcInstant>)
        requires
            app_wf(*old(self)),
        ensures
            refiltered(*old(self), *final(self), from, to),
    {
        let ghost c = criteria_of(*self, from, to);
        let low = to_lowercase(self.search.as_str());
        let sl = chars_of(low.as_str());
        let mut asc: Vec<usize> = Vec::new();
        let mut i: usize = 0;
        while i < self.records.len()
            invariant
                i <= self.records.len(),
                sl@ == lowercase(self.search@),
                c == criteria_of(*self, from, to),
                asc@ == selected(c, self.records@, i as int),
            decreases self.records.len() - i,
        {
            if self.record_passes(&self.records[i], &from, &to, &sl) {
                asc.push(i);
            }
            i = i + 1;
        }
        proof {
            lemma_selected_bounds(c, self.records@, self.records@.len() as int);
        }
        let filtered = if self.sort_order == SortOrder::Desc {
            let mut rev: Vec<usize> = Vec::new();
            let mut k: usize = asc.len();
            while k > 0
                invariant
                    k <= asc.len(),
                    rev@ == asc@.subrange(k as int, asc@.len() as int).reverse(),
                decreases k,
            {
                k = k - 1;
                rev.push(asc[k]);
                assert(rev@ =~= asc@.subrange(k as int, asc@.len() as int).reverse());
            }
            assert(asc@.subrange(0, asc@.len() as int) =~= asc@);
            rev
        } else {
            asc
        };
        proof {
            assert forall|p: int| 0 <= p < filtered@.len() implies #[trigger] filtered@[p] < self.records@.len() by {
                if self.sort_order == SortOrder::Desc {
                    assert(filtered@[p] == asc@[asc@.len() - 1 - p]);
                }
            }
        }
        self.stats = LevelStats::from_filtered(self.records.as_slice(), filtered.as_slice());
        self.template_summary = build_template_summary(self.records.as_slice(), filtered.as_slice());
        self.filtered = filtered;
        let pages = self.total_pages();
        if pages > 0 && self.page >= pages {
            self.page = pages - 1;
        }
    }

    /// Refilters the records, resolving the time range on the local clock:
    /// a disabled end (or one with an out-of-range time of day) imposes
    /// nothing; otherwise the instant the local time zone gives is used.
    pub fn apply_filter(&mut self)
        requires
            app_wf(*old(self)),
        ensures
            exists|from: Option<UtcInstant>, to: Option<UtcInstant>| {
                &&& bounds_of(*old(self), from, to)
                &&& refiltered(*old(self), *final(self), from, to)
            },
    {
        let ghost before = *self;
        let from = self.time_from.to_utc();
        let to = self.time_to.to_utc();
        assert(bounds_of(before, from, to));
        self.filter_with_bounds(from, to);
        assert(bounds_of(before, from, to) && refiltered(before, *self, from, to));
    }

    /// The number of pages the filtered records take (at least one).
    pub fn total_pages(&self) -> (r: usize)
        requires
            self.page_size > 0,
            self.filtered.len() + self.page_size - 1 <= usize::MAX,
        ensures
            r == page_count(self.filtered.len() as int, self.page_size as int),
            r >= 1,
    {
        if self.filtered.len() == 0 {
            return 1;
        }
        let n = self.filtered.len();
        let ps = self.page_size;
        assert((n + ps - 1) / (ps as int) >= 1) by (nonlinear_arith)
            requires
                n >= 1,
                ps >= 1,
        ;
        (n - 1 + ps) / ps
    }
}

/// The first record index of the page `page`, `page_size` records to a
/// page, within `n` records.
pub open spec fn page_start(page: int, page_size: int, n: int) -> int {
    if page * page_size < n { page * page_size } else { n }
}

/// The index just past the last record of the page.
pub open spec fn page_end(page: int, page_size: int, n: int) -> int {
    if page_start(page, page_size, n) + page_size < n { page_start(page, page_size, n) + page_size } else { n }
}

/// How a property is shown in the detail of a record.
#[derive(Clone, Copy, Debug, PartialEq, Eq, Structural)]
pub enum DetailKind {
    /// The exception, shown above the table.
    ExceptionNote,
    /// A text with several lines or more than 120 bytes of UTF-8.
    Multiline,
    /// A short one-line text.
    Single,
}

/// One row of the property table of a record.
pub struct DetailRow {
    pub key: String,
    pub value: String,
    /// Whether the key is a CLEF field (it starts with `@`).
    pub is_meta: bool,
    pub kind: DetailKind,
}

/// The text a property value is shown with: strings bare, anything else as
/// its JSON text.
pub open spec fn detail_value(v: JsonValue) -> Seq<char> {
    match v.node {
        JsonNode::String(s) => s@,
        _ => v.text@,
    }
}

/// How a property with key `k` and shown text `t` is shown.
pub open spec fn detail_kind(k: Seq<char>, t: Seq<char>) -> DetailKind {
    if k == "@x"@ {
        DetailKind::ExceptionNote
    } else if t.contains('\n') || (vstd::utf8::encode_utf8(t).len() as usize) > 120 {
        DetailKind::Multiline
    } else {
        DetailKind::Single
    }
}

/// The detail rows of the members `entries`: every member but `@t` and `@l`,
/// in order.
pub open spec fn detail_rows_of(entries: Seq<(String, JsonValue)>) -> Seq<(Seq<char>, Seq<char>, bool, DetailKind)>
    decreases entries.len(),
{
    if entries.len() == 0 {
        Seq::empty()
    } else {
        let prev = detail_rows_of(entries.drop_last());
        let (k, v) = entries.last();
        if k@ == "@t"@ || k@ == "@l"@ {
            prev
        } else {
            prev.push((k@, detail_value(v), k@.len() > 0 && k@[0] == '@', detail_kind(k@, detail_value(v))))
        }
    }
}

/// Whether `i` is the position of the first record with a parsed timestamp.
pub open spec fn first_dated(records: Seq<LogRecord>, i: int) -> bool {
    &&& 0 <= i < records.len()
    &&& records[i].dt_utc is Some
    &&& forall|k: int| 0 <= k < i ==> (#[trigger] records[k]).dt_utc is None
}

/// Whether `i` is the position of the last record with a parsed timestamp.
pub open spec fn last_dated(records: Seq<LogRecord>, i: int) -> bool {
    &&& 0 <= i < records.len()
    &&& records[i].dt_utc is Some
    &&& forall|k: int| i < k < records.len() ==> (#[trigger] records[k]).dt_utc is None
}

/// The date and time an end of the range shows.
pub open spec fn reading_of(f: DateFilter) -> LocalDateTime {
    LocalDateTime { date: f.date, hour: f.hour, minute: f.minute, second: f.second }
}

/// Whether the end `after` is set from the instant `d` as `from_instant`
/// gives it: disabled, at the local reading of `d`; or left as `before`
/// where chrono cannot represent `d`.
pub open spec fn end_set_from(before: DateFilter, after: DateFilter, d: UtcInstant) -> bool {
    ||| !after.enabled && local_reading(d, reading_of(after))
    ||| !representable(d) && after == before
}

/// What compiling the trimmed property filter text `e` leaves: no filter
/// and no error for an empty text; otherwise the compiled filter, or the
/// message of `compile` when it refuses the text.
pub open spec fn filter_compiled(e: Seq<char>, pf: Option<PropertyFilter>, err: Option<String>) -> bool {
    if e.len() == 0 {
        pf is None && err is None
    } else if tree_builds(e) {
        &&& pf matches Some(p) && p@ == e
        &&& err is None
    } else {
        &&& pf is None
        &&& err matches Some(m) && m@ == build_error_text(e)
    }
}

/// The status line after loading `n` records.
pub open spec fn loaded_status(n: nat) -> Seq<char> {
    "Loaded "@ + decimal(n) + " records"@
}

/// Whether some record has a parsed timestamp.
pub open spec fn some_dated(records: Seq<LogRecord>) -> bool {
    exists|i: int| 0 <= i < records.len() && (#[trigger] records[i]).dt_utc is Some
}

impl Default for App {
    /// An empty viewer: no file, all levels shown, 100 records to a page.
    fn default() -> (r: App)
        ensures
            r.records@.len() == 0 && r.filtered@.len() == 0,
            r.search@.len() == 0,
            forall|i: int| 0 <= i < 7 ==> r.level_filters@[i],
            !r.time_from.enabled && !r.time_to.enabled,
            r.expanded is None && r.file_path is None,
            r.status@ == "No file loaded."@,
            forall|i: int| 0 <= i < 7 ==> r.stats.counts@[i] == 0,
            r.page == 0 && r.page_size == 100 && r.tab == Tab::Logs,
            r.template_summary@.len() == 0 && r.template_search@.len() == 0 && r.template_filter is None,
            r.property_filter@.len() == 0 && r.compiled_pf is None && r.pf_error is None,
            r.sort_order == SortOrder::Asc && r.load_state == LoadState::Idle && r.pending_path is None,
    {
        App {
            records: Vec::new(),
            filtered: Vec::new(),
            search: String::new(),
            level_filters: [true, true, true, true, true, true, true],
            time_from: DateFilter::empty(),
            time_to: DateFilter::empty(),
            expanded: None,
            file_path: None,
            status: "No file loaded.".to_string(),
            stats: LevelStats { counts: [0, 0, 0, 0, 0, 0, 0] },
            page: 0,
            page_size: 100,
            tab: Tab::Logs,
            template_summary: Vec::new(),
            template_search: String::new(),
            template_filter: None,
            property_filter: String::new(),
            compiled_pf: None,
            pf_error: None,
            sort_order: SortOrder::Asc,
            load_state: LoadState::Idle,
            pending_path: None,
        }
    }
}

impl App {
    /// Forgets the file and every setting, keeping the page size and any
    /// load in progress.
    pub fn close_file(&mut self)
        ensures
            final(self).records@.len() == 0 && final(self).filtered@.len() == 0,
            final(self).search@.len() == 0,
            forall|i: int| 0 <= i < 7 ==> final(self).level_filters@[i],
            !final(self).time_from.enabled && !final(self).time_to.enabled,
            final(self).expanded is None && final(self).file_path is None,
            final(self).status@ == "No file loaded."@,
            forall|i: int| 0 <= i < 7 ==> final(self).stats.counts@[i] == 0,
            final(self).page == 0 && final(self).tab == Tab::Logs,
            final(self).template_summary@.len() == 0 && final(self).template_search@.len() == 0,
            final(self).template_filter is None,
            final(self).property_filter@.len() == 0 && final(self).compiled_pf is None && final(self).pf_error is None,
            final(self).sort_order == SortOrder::Asc,
            final(self).page_size == old(self).page_size,
            final(self).load_state == old(self).load_state,
            final(self).pending_path == old(self).pending_path,
    {
        self.records.clear();
        self.filtered.clear();
        self.search = String::new();
        self.level_filters = [true, true, true, true, true, true, true];
        self.time_from = DateFilter::empty();
        self.time_to = DateFilter::empty();
        self.expanded = None;
        self.file_path = None;
        self.status = "No file loaded.".to_string();
        self.stats = LevelStats { counts: [0, 0, 0, 0, 0, 0, 0] };
        self.page = 0;
        self.tab = Tab::Logs;
        self.template_summary.clear();
        self.template_search = String::new();
        self.template_filter = None;
        self.property_filter = String::new();
        self.compiled_pf = None;
        self.pf_error = None;
        self.sort_order = SortOrder::Asc;
    }

    /// Compiles the property filter text, trimmed: an empty text means no
    /// filter; a text evalexpr rejects gives an error message and no filter.
    pub fn recompile_property_filter(&mut self)
        ensures
            filter_compiled(trimmed(old(self).property_filter@), final(self).compiled_pf, final(self).pf_error),
            *final(self) == (App { compiled_pf: final(self).compiled_pf, pf_error: final(self).pf_error, ..*old(self) }),
    {
        let expr = trim(self.property_filter.as_str());
        if expr.as_str().is_empty() {
            self.compiled_pf = None;
            self.pf_error = None;
        } else {
            match PropertyFilter::compile(expr.as_str()) {
                Ok(pf) => {
                    self.compiled_pf = Some(pf);
                    self.pf_error = None;
                },
                Err(e) => {
                    self.compiled_pf = None;
                    self.pf_error = Some(e.message);
                },
            }
        }
    }

    /// The indices of the records on the current page.
    pub fn page_records(&self) -> (r: &[usize])
        requires
            self.page * self.page_size <= usize::MAX,
            page_start(self.page as int, self.page_size as int, self.filtered@.len() as int) + self.page_size
                <= usize::MAX,
        ensures
            r@ == self.filtered@.subrange(
                page_start(self.page as int, self.page_size as int, self.filtered@.len() as int),
                page_end(self.page as int, self.page_size as int, self.filtered@.len() as int),
            ),
    {
        let len = self.filtered.len();
        let p = self.page * self.page_size;
        let s = if p < len { p } else { len };
        let e = if s + self.page_size < len { s + self.page_size } else { len };
        vstd::slice::slice_subrange(self.filtered.as_slice(), s, e)
    }

    /// Starts reading `path` in the background.
    pub fn begin_load(&mut self, path: PathBuf)
        ensures
            final(self).load_state == LoadState::Loading,
            final(self).pending_path == Some(path),
            final(self).status@ == "Loading…"@,
            *final(self) == (App {
                load_state: LoadState::Loading,
                pending_path: Some(path),
                status: final(self).status,
                ..*old(self)
            }),
    {
        self.load_state = LoadState::Loading;
        self.pending_path = Some(path);
        self.status = "Loading…".to_string();
    }

    /// Takes in what a background load produced: nothing yet changes
    /// nothing; a failed load reports it; loaded records replace the old
    /// ones, the time range is set to their first and last timestamps on the
    /// local clock (an end stays as it was when chrono cannot represent its
    /// instant), and the filters are applied from the first page.
    pub fn finish_load(&mut self, outcome: LoadOutcome)
        requires
            app_wf(*old(self)),
            outcome matches LoadOutcome::Received(rs) ==> rs.len() + old(self).page_size - 1 <= usize::MAX,
        ensures
            outcome is Pending ==> *final(self) == *old(self),
            outcome is Disconnected ==> {
                &&& final(self).status@ == "Load failed."@
                &&& *final(self) == (App {
                    status: final(self).status,
                    load_state: LoadState::Idle,
                    pending_path: None,
                    ..*old(self)
                })
            },
            outcome matches LoadOutcome::Received(rs) ==> {
                &&& final(self).records == rs
                &&& final(self).expanded is None
                &&& final(self).page == 0
                &&& final(self).template_filter is None
                &&& final(self).file_path == old(self).pending_path
                &&& final(self).pending_path is None
                &&& final(self).status@ == loaded_status(rs.len() as nat)
                &&& final(self).load_state == LoadState::Idle
                &&& (!some_dated(rs@) ==> final(self).time_from == old(self).time_from && final(self).time_to == old(self).time_to)
                &&& forall|i: int| first_dated(rs@, i)
                    ==> end_set_from(old(self).time_from, final(self).time_from, rs@[i].dt_utc->0)
                &&& forall|i: int| last_dated(rs@, i)
                    ==> end_set_from(old(self).time_to, final(self).time_to, rs@[i].dt_utc->0)
                &&& exists|from: Option<UtcInstant>, to: Option<UtcInstant>|
                    bounds_of(*final(self), from, to) && filters_applied(*final(self), from, to)
            },
    {
        match outcome {
            LoadOutcome::Pending => {},
            LoadOutcome::Disconnected => {
                self.status = "Load failed.".to_string();
                self.load_state = LoadState::Idle;
                self.pending_path = None;
            },
            LoadOutcome::Received(records) => {
                let ghost rs = records;
                self.records = records;
                self.expanded = None;
                self.page = 0;
                self.template_filter = None;
                let mut i: usize = 0;
                while i < self.records.len() && self.records[i].dt_utc.is_none()
                    invariant
                        i <= self.records.len(),
                        forall|k: int| 0 <= k < i ==> (#[trigger] self.records@[k]).dt_utc is None,
                    decreases self.records.len() - i,
                {
                    i = i + 1;
                }
                let ghost dated = some_dated(self.records@);
                if i < self.records.len() {
                    let ghost before_from = self.time_from;
                    if let Some(dt) = &self.records[i].dt_utc {
                        if let Some(f) = DateFilter::from_instant(dt) {
                            self.time_from = f;
                        }
                    }
                    assert(first_dated(rs@, i as int));
                    assert(end_set_from(before_from, self.time_from, rs@[i as int].dt_utc->0));
                    assert forall|i2: int| first_dated(rs@, i2) implies i2 == i by {
                        if i2 < i {
                            assert(rs@[i2].dt_utc is None);
                        } else if i2 > i {
                            assert(rs@[i as int].dt_utc is None);
                        }
                    }
                    let mut j: usize = self.records.len();
                    while j > 0 && self.records[j - 1].dt_utc.is_none()
                        invariant
                            i < self.records.len(),
                            self.records@[i as int].dt_utc is Some,
                            i < j <= self.records.len(),
                            forall|k: int| j <= k < self.records.len() ==> (#[trigger] self.records@[k]).dt_utc is None,
                        decreases j,
                    {
                        j = j - 1;
                    }
                    let ghost before_to = self.time_to;
                    if let Some(dt) = &self.records[j - 1].dt_utc {
                        if let Some(t) = DateFilter::from_instant(dt) {
                            self.time_to = t;
                        }
                    }
                    assert(last_dated(rs@, j - 1));
                    assert(end_set_from(before_to, self.time_to, rs@[j - 1].dt_utc->0));
                    assert forall|i2: int| last_dated(rs@, i2) implies i2 == j - 1 by {
                        if i2 < j - 1 {
                            assert(rs@[j - 1].dt_utc is None);
                        } else if i2 > j - 1 {
                            assert(rs@[i2].dt_utc is None);
                        }
                    }
                } else {
                    assert(!some_dated(self.records@));
                    assert forall|i2: int| !first_dated(rs@, i2) && !last_dated(rs@, i2) by {
                        if 0 <= i2 < rs@.len() {
                            assert(rs@[i2].dt_utc is None);
                        }
                    }
                }
                self.file_path = self.pending_path.take();
                let mut status: Vec<char> = Vec::new();
                push_str(&mut status, "Loaded ");
                let n = decimal_text(self.records.len());
                push_str(&mut status, n.as_str());
                push_str(&mut status, " records");
                self.status = string_of(&status);
                self.load_state = LoadState::Idle;
                let ghost mid = *self;
                self.apply_filter();
                proof {
                    let (from, to) = choose|from: Option<UtcInstant>, to: Option<UtcInstant>| {
                        &&& bounds_of(mid, from, to)
                        &&& refiltered(mid, *self, from, to)
                    };
                    law_refiltered_is_applied(mid, *self, from, to);
                    assert(bounds_of(*self, from, to));
                }
                assert(self.records == rs);
                assert(self.page == 0);
                assert(self.status@ == loaded_status(rs.len() as nat));
                assert(self.file_path == old(self).pending_path);
                assert(!some_dated(rs@) ==> self.time_from == old(self).time_from && self.time_to == old(self).time_to);

            },
        }
    }
}

impl App {
    /// The range of page numbers offered for direct choice: from four pages
    /// before the current one, at most ten, within the page count.
    pub fn page_window(&self) -> (r: (usize, usize))
        requires
            self.page_size > 0,
            self.filtered.len() + self.page_size - 1 <= usize::MAX,
            self.page + 10 <= usize::MAX,
        ensures
            r.0 == if self.page >= 4 { self.page - 4 } else { 0 },
            r.1 == if r.0 + 10 < page_count(self.filtered.len() as int, self.page_size as int) {
                r.0 + 10
            } else {
                page_count(self.filtered.len() as int, self.page_size as int)
            },
    {
        let ws = if self.page >= 4 { self.page - 4 } else { 0 };
        let pages = self.total_pages();
        let we = if ws + 10 < pages { ws + 10 } else { pages };
        (ws, we)
    }

    /// Shows page `p`, collapsing any expanded record.
    pub fn go_to_page(&mut self, p: usize)
        ensures
            *final(self) == (App { page: p, expanded: None, ..*old(self) }),
    {
        self.page = p;
        self.expanded = None;
    }

    /// Shows the previous page, if there is one.
    pub fn prev_page(&mut self)
        ensures
            old(self).page > 0 ==> *final(self) == (App { page: (old(self).page - 1) as usize, expanded: None, ..*old(self) }),
            old(self).page == 0 ==> *final(self) == *old(self),
    {
        if self.page > 0 {
            self.page = self.page - 1;
            self.expanded = None;
        }
    }

    /// Shows the next page, if there is one.
    pub fn next_page(&mut self)
        requires
            old(self).page_size > 0,
            old(self).filtered.len() + old(self).page_size - 1 <= usize::MAX,
            old(self).page < usize::MAX,
        ensures
            ({
                let pages = page_count(old(self).filtered.len() as int, old(self).page_size as int);
                &&& old(self).page + 1 < pages
                    ==> *final(self) == (App { page: (old(self).page + 1) as usize, expanded: None, ..*old(self) })
                &&& old(self).page + 1 >= pages ==> *final(self) == *old(self)
            }),
    {
        if self.page + 1 < self.total_pages() {
            self.page = self.page + 1;
            self.expanded = None;
        }
    }

    /// Shows `size` records to a page, from the first page.
    pub fn set_page_size(&mut self, size: usize)
        requires
            size > 0,
        ensures
            *final(self) == (App { page_size: size, page: 0, expanded: None, ..*old(self) }),
    {
        self.page_size = size;
        self.page = 0;
        self.expanded = None;
    }

    /// Expands the record `idx`, or collapses it when it is the expanded one.
    pub fn toggle_expanded(&mut self, idx: usize)
        ensures
            *final(self) == (App {
                expanded: if old(self).expanded == Some(idx) { None } else { Some(idx) },
                ..*old(self)
            }),
    {
        if self.expanded == Some(idx) {
            self.expanded = None;
        } else {
            self.expanded = Some(idx);
        }
    }

    /// Shows or hides the level of rank `idx` (the filters are not reapplied).
    pub fn toggle_level(&mut self, idx: usize)
        requires
            idx < 7,
        ensures
            final(self).level_filters@ == old(self).level_filters@.update(idx as int, !old(self).level_filters@[idx as int]),
            *final(self) == (App { level_filters: final(self).level_filters, ..*old(self) }),
    {
        let on = self.level_filters[idx];
        self.level_filters[idx] = !on;
    }

    /// Reapplies the filters from the first page.
    pub fn restart_filter(&mut self)
        requires
            app_wf(*old(self)),
        ensures
            final(self).page == 0,
            exists|from: Option<UtcInstant>, to: Option<UtcInstant>|
                bounds_of(*final(self), from, to) && filters_applied(*final(self), from, to),
            same_settings(*old(self), *final(self)),
    {
        self.page = 0;
        let ghost mid = *self;
        self.apply_filter();
        proof {
            let (from, to) = choose|from: Option<UtcInstant>, to: Option<UtcInstant>| {
                &&& bounds_of(mid, from, to)
                &&& refiltered(mid, *self, from, to)
            };
            law_refiltered_is_applied(mid, *self, from, to);
        }
    }

    /// Clears the search text and the template filter and reapplies the
    /// filters from the first page.
    pub fn clear_search(&mut self)
        requires
            app_wf(*old(self)),
        ensures
            final(self).search@.len() == 0,
            final(self).template_filter is None,
            final(self).page == 0,
            same_settings((App { search: final(self).search, template_filter: None, ..*old(self) }), *final(self)),
            exists|from: Option<UtcInstant>, to: Option<UtcInstant>|
                bounds_of(*final(self), from, to) && filters_applied(*final(self), from, to),
    {
        self.search = String::new();
        self.template_filter = None;
        self.restart_filter();
    }

    /// Drops the template filter and reapplies the filters from the first page.
    pub fn clear_template_filter(&mut self)
        requires
            app_wf(*old(self)),
        ensures
            final(self).template_filter is None,
            final(self).page == 0,
            same_settings((App { template_filter: None, ..*old(self) }), *final(self)),
            exists|from: Option<UtcInstant>, to: Option<UtcInstant>|
                bounds_of(*final(self), from, to) && filters_applied(*final(self), from, to),
    {
        self.template_filter = None;
        self.restart_filter();
    }

    /// Takes in an edited property filter text: compiles it and reapplies the
    /// filters from the first page.
    pub fn property_filter_changed(&mut self)
        requires
            app_wf(*old(self)),
        ensures
            filter_compiled(trimmed(old(self).property_filter@), final(self).compiled_pf, final(self).pf_error),
            final(self).page == 0,
            same_settings(
                (App { compiled_pf: final(self).compiled_pf, pf_error: final(self).pf_error, ..*old(self) }),
                *final(self),
            ),
            exists|from: Option<UtcInstant>, to: Option<UtcInstant>|
                bounds_of(*final(self), from, to) && filters_applied(*final(self), from, to),
    {
        self.recompile_property_filter();
        self.restart_filter();
    }

    /// Clears the property filter and reapplies the filters from the first page.
    pub fn clear_property_filter(&mut self)
        requires
            app_wf(*old(self)),
        ensures
            final(self).property_filter@.len() == 0,
            final(self).compiled_pf is None && final(self).pf_error is None,
            final(self).page == 0,
            same_settings(
                (App { property_filter: final(self).property_filter, compiled_pf: None, pf_error: None, ..*old(self) }),
                *final(self),
            ),
            exists|from: Option<UtcInstant>, to: Option<UtcInstant>|
                bounds_of(*final(self), from, to) && filters_applied(*final(self), from, to),
    {
        self.property_filter = String::new();
        self.compiled_pf = None;
        self.pf_error = None;
        self.restart_filter();
    }

    /// The choice of the summary entry `i` in the templates view: choosing
    /// the template that filters already drops the filter; choosing another
    /// filters by it and switches to the logs view. The filters are then
    /// reapplied from the first page.
    pub fn select_template(&mut self, i: usize)
        requires
            app_wf(*old(self)),
            i < old(self).template_summary.len(),
        ensures
            ({
                let t = old(self).template_summary@[i as int].template;
                &&& (old(self).template_filter matches Some(f) && f@ == t@) ==> final(self).template_filter is None
                    && final(self).tab == old(self).tab
                &&& !(old(self).template_filter matches Some(f) && f@ == t@) ==> final(self).template_filter == Some(t)
                    && final(self).tab == Tab::Logs
            }),
            final(self).page == 0,
            same_settings(
                (App { template_filter: final(self).template_filter, tab: final(self).tab, ..*old(self) }),
                *final(self),
            ),
            exists|from: Option<UtcInstant>, to: Option<UtcInstant>|
                bounds_of(*final(self), from, to) && filters_applied(*final(self), from, to),
    {
        let t = self.template_summary[i].template.clone();
        let active = match &self.template_filter {
            Some(f) => crate::text::str_eq(f.as_str(), t.as_str()),
            None => false,
        };
        if active {
            self.template_filter = None;
        } else {
            self.template_filter = Some(t);
            self.tab = Tab::Logs;
        }
        self.restart_filter();
    }

    /// The positions of the summary entries the templates view lists: those
    /// whose template contains the template search text, compared in
    /// lowercase (all of them when the search text is empty).
    pub fn visible_templates(&self) -> (r: Vec<usize>)
        ensures
            r@ == visible_positions(self.template_summary@, lowercase(self.template_search@), self.template_summary@.len() as int),
    {
        let low = to_lowercase(self.template_search.as_str());
        let search = chars_of(low.as_str());
        let mut out: Vec<usize> = Vec::new();
        let mut i: usize = 0;
        while i < self.template_summary.len()
            invariant
                i <= self.template_summary.len(),
                search@ == lowercase(self.template_search@),
                out@ == visible_positions(self.template_summary@, search@, i as int),
            decreases self.template_summary.len() - i,
        {
            let shown = search.len() == 0
                || chars_contain(&chars_of(to_lowercase(self.template_summary[i].template.as_str()).as_str()), &search);
            if shown {
                out.push(i);
            }
            i = i + 1;
        }
        out
    }

    /// The number of errors and fatal events counted, and whether any of
    /// them is fatal.
    pub fn error_summary(&self) -> (r: (usize, bool))
        requires
            self.stats.counts@[rank(Level::Error)] + self.stats.counts@[rank(Level::Fatal)] <= usize::MAX,
        ensures
            r.0 == self.stats.counts@[rank(Level::Error)] + self.stats.counts@[rank(Level::Fatal)],
            r.1 == (self.stats.counts@[rank(Level::Fatal)] > 0),
    {
        let errs = self.stats.count(Level::Error);
        let fatal = self.stats.count(Level::Fatal);
        (errs + fatal, fatal > 0)
    }
}

/// The positions below `n` of the summary entries whose lowercased template
/// contains `search` (all of them when `search` is empty).
pub open spec fn visible_positions(summary: Seq<TemplateSummary>, search: Seq<char>, n: int) -> Seq<usize>
    decreases n,
{
    if n <= 0 {
        Seq::empty()
    } else if search.len() == 0 || contains_text(lowercase(summary[n - 1].template@), search) {
        visible_positions(summary, search, n - 1).push((n - 1) as usize)
    } else {
        visible_positions(summary, search, n - 1)
    }
}

/// The label of a level button: its abbreviation and its count, as
/// `VRB (12)`.
pub fn level_button_label(l: Level, count: usize) -> (r: String)
    ensures
        r@ == short_of(l) + " ("@ + decimal(count as nat) + ")"@,
{
    let mut out: Vec<char> = Vec::new();
    push_str(&mut out, l.short());
    push_str(&mut out, " (");
    push_str(&mut out, decimal_text(count).as_str());
    push_str(&mut out, ")");
    assert(out@ =~= short_of(l) + " ("@ + decimal(count as nat) + ")"@);
    string_of(&out)
}

/// The first 50 characters of a template, as shown on the template-filter chip.
pub fn template_chip(t: &str) -> (r: String)
    ensures
        r@ == if t@.len() <= 50 { t@ } else { t@.take(50) },
{
    let c = chars_of(t);
    if c.len() <= 50 {
        return string_of(&c);
    }
    let mut out: Vec<char> = Vec::new();
    let mut i: usize = 0;
    while i < 50
        invariant
            i <= 50,
            50 < c.len(),
            out@ == c@.take(i as int),
        decreases 50 - i,
    {
        out.push(c[i]);
        i = i + 1;
        assert(out@ =~= c@.take(i as int));
    }
    string_of(&out)
}

/// The rows of the property table of a record (see `detail_rows_of`); a
/// record that is not an object has none.
pub fn detail_rows(record: &LogRecord) -> (r: Vec<DetailRow>)
    ensures
        r@.map_values(|d: DetailRow| (d.key@, d.value@, d.is_meta, d.kind)) == match record.raw.node {
            JsonNode::Object(entries) => detail_rows_of(entries@),
            _ => Seq::empty(),
        },
{
    let mut out: Vec<DetailRow> = Vec::new();
    let entries = match &record.raw.node {
        JsonNode::Object(entries) => entries,
        _ => {
            assert(out@.map_values(|d: DetailRow| (d.key@, d.value@, d.is_meta, d.kind)) =~= Seq::empty());
            return out;
        },
    };
    let t_key = chars_of("@t");
    let l_key = chars_of("@l");
    let x_key = chars_of("@x");
    let mut i: usize = 0;
    while i < entries.len()
        invariant
            i <= entries.len(),
            t_key@ == "@t"@ && l_key@ == "@l"@ && x_key@ == "@x"@,
            out@.map_values(|d: DetailRow| (d.key@, d.value@, d.is_meta, d.kind)) == detail_rows_of(entries@.take(i as int)),
        decreases entries.len() - i,
    {
        let ghost t = entries@.take(i + 1);
        let ghost prev = out@;
        proof {
            assert(t.drop_last() =~= entries@.take(i as int));
            assert(t.last() == entries@[i as int]);
        }
        let k = &entries[i].0;
        if !same_text(&t_key, k.as_str()) && !same_text(&l_key, k.as_str()) {
            let kc = chars_of(k.as_str());
            let value = match &entries[i].1.node {
                JsonNode::String(s) => s.clone(),
                _ => entries[i].1.text.clone(),
            };
            let vc = chars_of(value.as_str());
            let kind = if same_text(&x_key, k.as_str()) {
                DetailKind::ExceptionNote
            } else if has_newline(&vc) || value.as_str().len() > 120 {
                DetailKind::Multiline
            } else {
                DetailKind::Single
            };
            let is_meta = kc.len() > 0 && kc[0] == '@';
            proof {
                assert(kind == detail_kind(k@, value@));
                assert(value@ == detail_value(entries@[i as int].1));
                assert(is_meta == (k@.len() > 0 && k@[0] == '@'));
                assert(detail_rows_of(t) == detail_rows_of(entries@.take(i as int)).push(
                    (k@, detail_value(entries@[i as int].1), is_meta, kind)));
            }
            out.push(DetailRow { key: k.clone(), value, is_meta, kind });
            assert(out@.map_values(|d: DetailRow| (d.key@, d.value@, d.is_meta, d.kind))
                =~= prev.map_values(|d: DetailRow| (d.key@, d.value@, d.is_meta, d.kind)).push(
                    (k@, detail_value(entries@[i as int].1), is_meta, kind)));
        } else {
            assert(out@ == prev);
        }
        i = i + 1;
    }
    assert(entries@.take(i as int) =~= entries@);
    out
}

/// Whether `c` holds a line break.
fn has_newline(c: &Vec<char>) -> (r: bool)
    ensures
        r == c@.contains('\n'),
{
    let mut i: usize = 0;
    while i < c.len()
        invariant
            i <= c.len(),
            forall|k: int| 0 <= k < i ==> c@[k] != '\n',
        decreases c.len() - i,
    {
        if c[i] == '\n' {
            assert(c@[i as int] == '\n');
            return true;
        }
        i = i + 1;
    }
    false
}

/// Law: a record is listed exactly when it passes the criteria, and the
/// listed indices increase.
pub proof fn law_listed_iff_passes(c: Criteria, records: Seq<LogRecord>)
    requires
        records.len() <= usize::MAX,
    ensures
        forall|i: int| 0 <= i < records.len() ==> (selected(c, records, records.len() as int).contains(i as usize)
            <==> passes(c, #[trigger] records[i])),
        forall|p: int, q: int| 0 <= p < q < selected(c, records, records.len() as int).len()
            ==> selected(c, records, records.len() as int)[p] < selected(c, records, records.len() as int)[q],
{
    lemma_selected(c, records, records.len() as int);
}

/// The records selected below `n` are those that pass, in increasing order.
proof fn lemma_selected(c: Criteria, records: Seq<LogRecord>, n: int)
    requires
        0 <= n <= records.len(),
        records.len() <= usize::MAX,
    ensures
        forall|i: int| 0 <= i < n ==> (selected(c, records, n).contains(i as usize) <==> passes(c, #[trigger] records[i])),
        forall|p: int| 0 <= p < selected(c, records, n).len() ==> #[trigger] selected(c, records, n)[p] < n,
        forall|p: int, q: int| 0 <= p < q < selected(c, records, n).len()
            ==> selected(c, records, n)[p] < selected(c, records, n)[q],
    decreases n,
{
    if n > 0 {
        lemma_selected(c, records, n - 1);
        let prev = selected(c, records, n - 1);
        let cur = selected(c, records, n);
        assert forall|i: int| 0 <= i < n implies (cur.contains(i as usize) <==> passes(c, #[trigger] records[i])) by {
            if passes(c, records[n - 1]) {
                assert(cur == prev.push((n - 1) as usize));
                if i == n - 1 {
                    assert(cur[prev.len() as int] == (n - 1) as usize);
                } else {
                    if prev.contains(i as usize) {
                        let k = choose|k: int| 0 <= k < prev.len() && prev[k] == i as usize;
                        assert(cur[k] == i as usize);
                    }
                    if cur.contains(i as usize) {
                        let k = choose|k: int| 0 <= k < cur.len() && cur[k] == i as usize;
                        if k == prev.len() {
                            assert(cur[k] == (n - 1) as usize);
                        }
                        assert(k < prev.len());
                        assert(prev[k] == i as usize);
                    }
                }
            } else {
                if i == n - 1 && prev.contains(i as usize) {
                    let k = choose|k: int| 0 <= k < prev.len() && prev[k] == i as usize;
                    assert(prev[k] < n - 1);
                }
            }
        }
    }
}

/// Law: paging covers the filtered records exactly: the first page starts
/// at the first record, each page ends where the next begins, no page holds
/// more than `page_size` records, and the last page ends at the last record.
pub proof fn law_pages_cover(n: int, page_size: int, p: int)
    requires
        n >= 0,
        page_size > 0,
        p >= 0,
    ensures
        page_start(0, page_size, n) == 0,
        page_end(p, page_size, n) == page_start(p + 1, page_size, n),
        page_start(p, page_size, n) <= page_end(p, page_size, n) <= page_start(p, page_size, n) + page_size,
        page_end(page_count(n, page_size) - 1, page_size, n) == n,
{
    assert((p + 1) * page_size == p * page_size + page_size) by (nonlinear_arith);
    assert(p * page_size >= 0) by (nonlinear_arith)
        requires
            p >= 0,
            page_size > 0,
    ;
    if n > 0 {
        let k = (n + page_size - 1) / page_size;
        assert(k >= 1 && (k - 1) * page_size < n && k * page_size >= n) by (nonlinear_arith)
            requires
                n > 0,
                page_size > 0,
                k == (n + page_size - 1) / page_size,
        ;
        assert((k - 1) * page_size + page_size == k * page_size) by (nonlinear_arith);
    }
}

/// The records of pages `0..k` of `s`, `page_size` to a page, one after
/// another.
pub open spec fn pages_joined(s: Seq<usize>, page_size: int, k: int) -> Seq<usize>
    decreases k,
{
    if k <= 0 {
        Seq::empty()
    } else {
        pages_joined(s, page_size, k - 1) + s.subrange(
            page_start(k - 1, page_size, s.len() as int),
            page_end(k - 1, page_size, s.len() as int),
        )
    }
}

/// The first `k` pages together are the records before page `k`.
proof fn lemma_pages_joined(s: Seq<usize>, page_size: int, k: int)
    requires
        page_size > 0,
        k >= 0,
    ensures
        pages_joined(s, page_size, k) == s.subrange(0, page_start(k, page_size, s.len() as int)),
        0 <= page_start(k, page_size, s.len() as int) <= s.len(),
    decreases k,
{
    let n = s.len() as int;
    law_pages_cover(n, page_size, k);
    if k > 0 {
        lemma_pages_joined(s, page_size, k - 1);
        law_pages_cover(n, page_size, k - 1);
        assert(s.subrange(0, page_start(k - 1, page_size, n)) + s.subrange(page_start(k - 1, page_size, n), page_end(k - 1, page_size, n))
            =~= s.subrange(0, page_start(k, page_size, n)));
    } else {
        assert(s.subrange(0, 0) =~= Seq::<usize>::empty());
    }
}

/// Law: the pages, one after another, give the whole filtered list.
pub proof fn law_pages_join(s: Seq<usize>, page_size: int)
    requires
        page_size > 0,
    ensures
        pages_joined(s, page_size, page_count(s.len() as int, page_size)) == s,
{
    let n = s.len() as int;
    let c = page_count(n, page_size);
    assert(c >= 1) by {
        law_pages_cover(n, page_size, 0);
        if n > 0 {
            assert((n + page_size - 1) / page_size >= 1) by (nonlinear_arith)
                requires
                    n > 0,
                    page_size > 0,
            ;
        }
    }
    law_pages_cover(n, page_size, c - 1);
    lemma_pages_joined(s, page_size, c);
    assert(s.subrange(0, n) =~= s);
}

/// Law: listing in descending order gives the same level counts, and a
/// template summary with the same templates, counts and dominant levels,
/// as listing in ascending order.
pub proof fn law_descending_same_counts(
    records: Seq<LogRecord>,
    asc: Seq<usize>,
    out_asc: Seq<TemplateSummary>,
    out_desc: Seq<TemplateSummary>,
)
    requires
        summary_correct(records, asc, out_asc),
        summary_correct(records, asc.reverse(), out_desc),
    ensures
        forall|l: Level| #[trigger] count_level(records, asc.reverse(), l) == count_level(records, asc, l),
        out_desc.len() == out_asc.len(),
        forall|i: int| 0 <= i < out_desc.len() ==> exists|j: int| 0 <= j < out_asc.len()
            && (#[trigger] out_asc[j]).template@ == (#[trigger] out_desc[i]).template@
            && out_asc[j].count == out_desc[i].count && out_asc[j].level == out_desc[i].level,
{
    lemma_reverse_multiset(asc);
    assert forall|l: Level| #[trigger] count_level(records, asc.reverse(), l) == count_level(records, asc, l) by {
        law_level_counts_reorder(records, asc.reverse(), asc, l);
    }
    law_summary_reorder(records, asc.reverse(), asc, out_desc, out_asc);
}

/// Law: a search text hits a record exactly when, compared in lowercase, it
/// occurs in the record's message, template, local timestamp, exception or
/// raw JSON text.
pub proof fn law_search_hits_texts(r: LogRecord, sl: Seq<char>)
    ensures
        contains_text(lowercase(r.message@), sl) ==> search_hit(r, sl),
        contains_text(lowercase(r.template@), sl) ==> search_hit(r, sl),
        contains_text(lowercase(r.timestamp_local@), sl) ==> search_hit(r, sl),
        contains_text(lowercase(r.exception@), sl) ==> search_hit(r, sl),
        contains_text(lowercase(r.raw.text@), sl) ==> search_hit(r, sl),
        search_hit(r, sl) ==> contains_text(lowercase(r.message@), sl) || contains_text(lowercase(r.template@), sl)
            || contains_text(lowercase(r.timestamp_local@), sl) || contains_text(lowercase(r.exception@), sl)
            || contains_text(lowercase(r.raw.text@), sl),
{
}

/// Law: a non-empty search text keeps, of the records the other criteria
/// keep, exactly those with a text (message, template, local timestamp,
/// exception or raw JSON) that contains it in lowercase.
pub proof fn law_search_narrows(c: Criteria, r: LogRecord)
    requires
        c.search.len() > 0,
    ensures
        passes(c, r) <==> passes((Criteria { search: Seq::empty(), ..c }), r) && (
            contains_text(lowercase(r.message@), c.search) || contains_text(lowercase(r.template@), c.search)
            || contains_text(lowercase(r.timestamp_local@), c.search) || contains_text(lowercase(r.exception@), c.search)
            || contains_text(lowercase(r.raw.text@), c.search)),
{
}

/// Law: the templates view lists entry `i` exactly when the search text is
/// empty or occurs, in lowercase, anywhere in the entry's lowercased
/// template; the positions listed increase.
pub proof fn law_visible_templates(summary: Seq<TemplateSummary>, search: Seq<char>, n: int)
    requires
        0 <= n <= summary.len(),
        n <= usize::MAX,
    ensures
        forall|i: int| 0 <= i < n ==> (visible_positions(summary, search, n).contains(i as usize)
            <==> (search.len() == 0 || contains_text(lowercase((#[trigger] summary[i]).template@), search))),
        forall|p: int, q: int| 0 <= p < q < visible_positions(summary, search, n).len()
            ==> visible_positions(summary, search, n)[p] < visible_positions(summary, search, n)[q],
    decreases n,
{
    lemma_visible_bounds(summary, search, n);
    if n > 0 {
        law_visible_templates(summary, search, n - 1);
        lemma_visible_bounds(summary, search, n - 1);
        let prev = visible_positions(summary, search, n - 1);
        let cur = visible_positions(summary, search, n);
        let shown = search.len() == 0 || contains_text(lowercase(summary[n - 1].template@), search);
        assert forall|i: int| 0 <= i < n implies (cur.contains(i as usize)
            <==> (search.len() == 0 || contains_text(lowercase((#[trigger] summary[i]).template@), search))) by {
            if shown {
                assert(cur == prev.push((n - 1) as usize));
                if i == n - 1 {
                    assert(cur[prev.len() as int] == (n - 1) as usize);
                } else {
                    if prev.contains(i as usize) {
                        let k = choose|k: int| 0 <= k < prev.len() && prev[k] == i as usize;
                        assert(cur[k] == i as usize);
                    }
                    if cur.contains(i as usize) {
                        let k = choose|k: int| 0 <= k < cur.len() && cur[k] == i as usize;
                        if k == prev.len() {
                            assert(cur[k] == (n - 1) as usize);
                        }
                        assert(prev[k] == i as usize);
                    }
                }
            } else {
                if i == n - 1 && prev.contains(i as usize) {
                    let k = choose|k: int| 0 <= k < prev.len() && prev[k] == i as usize;
                    assert(prev[k] < n - 1);
                }
            }
        }
    }
}

/// The listed positions lie below `n`.
proof fn lemma_visible_bounds(summary: Seq<TemplateSummary>, search: Seq<char>, n: int)
    requires
        0 <= n <= usize::MAX,
    ensures
        forall|p: int| 0 <= p < visible_positions(summary, search, n).len()
            ==> #[trigger] visible_positions(summary, search, n)[p] < n,
    decreases n,
{
    if n > 0 {
        lemma_visible_bounds(summary, search, n - 1);
        let prev = visible_positions(summary, search, n - 1);
        assert(((n - 1) as usize) as int == n - 1);
        assert forall|p: int| 0 <= p < visible_positions(summary, search, n).len()
            implies #[trigger] visible_positions(summary, search, n)[p] < n by {
            if p < prev.len() {
                assert(prev[p] < n - 1);
            }
        }
    }
}

/// One more member adds a row unless its key is `@t` or `@l`; earlier rows stay.
proof fn lemma_detail_rows_step(entries: Seq<(String, JsonValue)>)
    requires
        entries.len() > 0,
    ensures
        ({
            let prev = detail_rows_of(entries.drop_last());
            let rows = detail_rows_of(entries);
            let k = entries.last().0@;
            &&& forall|r: int| 0 <= r < prev.len() ==> rows[r] == prev[r]
            &&& (k == "@t"@ || k == "@l"@) ==> rows.len() == prev.len()
            &&& !(k == "@t"@ || k == "@l"@) ==> rows.len() == prev.len() + 1 && rows[prev.len() as int].0 == k
                && rows[prev.len() as int].1 == detail_value(entries.last().1)
        }),
{
}

/// Whether row `r` of the property table of `entries` shows member `j`: its
/// key and its shown value.
pub open spec fn row_shows(entries: Seq<(String, JsonValue)>, r: int, j: int) -> bool {
    let rows = detail_rows_of(entries);
    &&& 0 <= r < rows.len()
    &&& 0 <= j < entries.len()
    &&& rows[r].0 == entries[j].0@
    &&& rows[r].1 == detail_value(entries[j].1)
}

/// Whether member `j` of `entries` gets a row: its key is not `@t` or `@l`.
pub open spec fn shown_member(entries: Seq<(String, JsonValue)>, j: int) -> bool {
    0 <= j < entries.len() && entries[j].0@ != "@t"@ && entries[j].0@ != "@l"@
}

/// Whether row `r` of the property table of `entries` shows some member
/// that gets a row.
pub open spec fn row_has_origin(entries: Seq<(String, JsonValue)>, r: int) -> bool {
    exists|j: int| #[trigger] shown_member(entries, j) && row_shows(entries, r, j)
}

/// Every member but `@t` and `@l` has a row with its key and shown value.
proof fn lemma_detail_rows_cover(entries: Seq<(String, JsonValue)>)
    ensures
        forall|j: int| #[trigger] shown_member(entries, j) ==> exists|r: int| row_shows(entries, r, j),
    decreases entries.len(),
{
    if entries.len() > 0 {
        let e1 = entries.drop_last();
        lemma_detail_rows_cover(e1);
        lemma_detail_rows_step(entries);
        let prev = detail_rows_of(e1);
        assert forall|j: int| #[trigger] shown_member(entries, j) implies exists|r: int| row_shows(entries, r, j) by {
            if j == entries.len() - 1 {
                assert(row_shows(entries, prev.len() as int, j));
            } else {
                assert(e1[j] == entries[j]);
                assert(shown_member(e1, j));
                let r = choose|r: int| row_shows(e1, r, j);
                assert(row_shows(entries, r, j));
            }
        }
    }
}

/// Every row comes from a member other than `@t` and `@l`.
proof fn lemma_detail_rows_origin(entries: Seq<(String, JsonValue)>)
    ensures
        forall|r: int| 0 <= r < detail_rows_of(entries).len() ==> #[trigger] row_has_origin(entries, r),
    decreases entries.len(),
{
    if entries.len() > 0 {
        let e1 = entries.drop_last();
        lemma_detail_rows_origin(e1);
        lemma_detail_rows_step(entries);
        let prev = detail_rows_of(e1);
        let rows = detail_rows_of(entries);
        assert forall|r: int| 0 <= r < rows.len() implies #[trigger] row_has_origin(entries, r) by {
            if r < prev.len() {
                assert(row_has_origin(e1, r));
                let j = choose|j: int| #[trigger] shown_member(e1, j) && row_shows(e1, r, j);
                assert(entries[j] == e1[j]);
                assert(shown_member(entries, j) && row_shows(entries, r, j));
            } else {
                let j = entries.len() - 1;
                assert(shown_member(entries, j) && row_shows(entries, r, j));
            }
        }
    }
}

/// Law: the property table has a row for every member of the event but
/// `@t` and `@l`, with the member's key and its shown value, and every row
/// comes from such a member.
pub proof fn law_detail_rows_cover_members(entries: Seq<(String, JsonValue)>)
    ensures
        forall|j: int| #[trigger] shown_member(entries, j) ==> exists|r: int| row_shows(entries, r, j),
        forall|r: int| 0 <= r < detail_rows_of(entries).len() ==> #[trigger] row_has_origin(entries, r),
{
    lemma_detail_rows_cover(entries);
    lemma_detail_rows_origin(entries);
}

} // verus!
