use vstd::prelude::*;

use crate::cell::CellView;
use crate::error::{ErrorView, OrbFdwError};
use crate::json::JsonView;
use crate::page::{
    item_views, ok_items, opt_str_view, skipped_count, rows_of_items, Page,
    PageView,
};
use crate::project::{name_views, project, projected_row, projected_row_err, Row};
use crate::schema::{registered, registry_fields, schema_for, FieldMappingView, ResourceSchema};

verus! {

broadcast use {
    vstd::std_specs::vec::group_vec_axioms,
    vstd::seq::group_seq_axioms,
    vstd::seq_lib::group_seq_lib_default,
};

/// How one page-fetch attempt failed: worth retrying (timeouts,
/// server-side hiccups) or not (authentication, malformed request).
pub enum FetchError {
    Transient(String),
    Fatal(String),
}

pub enum FetchErrorView {
    Transient(Seq<char>),
    Fatal(Seq<char>),
}

impl View for FetchError {
    type V = FetchErrorView;

    open spec fn view(&self) -> FetchErrorView {
        match self {
            FetchError::Transient(m) => FetchErrorView::Transient(m@),
            FetchError::Fatal(m) => FetchErrorView::Fatal(m@),
        }
    }
}

/// What one page-fetch attempt came back with.
pub enum FetchOutcome {
    Fetched(Page),
    Failed(FetchError),
}

pub enum FetchOutcomeView {
    Fetched(PageView),
    Failed(FetchErrorView),
}

impl View for FetchOutcome {
    type V = FetchOutcomeView;

    open spec fn view(&self) -> FetchOutcomeView {
        match self {
            FetchOutcome::Fetched(p) => FetchOutcomeView::Fetched(p@),
            FetchOutcome::Failed(e) => FetchOutcomeView::Failed(e@),
        }
    }
}

pub open spec fn outcome_views(feed: Seq<FetchOutcome>) -> Seq<FetchOutcomeView> {
    feed.map_values(|o: FetchOutcome| o@)
}

/// The next page to ask the transport for.
pub struct PageRequest {
    pub resource: String,
    pub cursor: Option<String>,
    pub page_size: u64,
}

/// What to do after a failed attempt: wait and try again, or give up
/// (the scan then carries its fatal error).
#[derive(Debug, PartialEq, Eq, Structural)]
pub enum FetchAction {
    Retry { delay_secs: u64 },
    Stop,
}

/// Two to the power `n`.
pub open spec fn pow2(n: int) -> int
    decreases n,
{
    if n <= 0 {
        1
    } else {
        2 * pow2(n - 1)
    }
}

pub proof fn lemma_pow2_pos(n: int)
    ensures
        pow2(n) >= 1,
    decreases n,
{
    if n > 0 {
        lemma_pow2_pos(n - 1);
    }
}

pub proof fn lemma_pow2_mono(a: int, b: int)
    requires
        a <= b,
    ensures
        pow2(a) <= pow2(b),
    decreases b - a,
{
    if a < b {
        lemma_pow2_mono(a, b - 1);
        lemma_pow2_pos(b - 1);
    }
}

pub proof fn lemma_pow2_62()
    ensures
        pow2(62) == 4611686018427387904,
{
    reveal_with_fuel(pow2, 64);
}

/// The delay before retrying after the failure of attempt number
/// `attempt`: exponential backoff, one time unit after the first
/// failure.
pub fn backoff_secs(attempt: u64) -> (r: u64)
    requires
        1 <= attempt <= 63,
    ensures
        r as int == pow2(attempt as int - 1),
{
    let mut acc: u64 = 1;
    let mut k: u64 = 0;
    while k < attempt - 1
        invariant
            0 <= k <= attempt - 1,
            attempt <= 63,
            acc as int == pow2(k as int),
        decreases attempt - 1 - k,
    {
        proof {
            lemma_pow2_mono(k as int + 1, 62);
            lemma_pow2_62();
            lemma_pow2_pos(k as int);
        }
        acc = acc * 2;
        k = k + 1;
    }
    acc
}

/// The page size of attempt number `attempt`: the base size shrunk by
/// the attempt count, never below one (smaller pages are less likely
/// to time out).
pub open spec fn next_page_size_spec(base: int, attempt: int) -> int {
    let s = base / attempt;
    if s < 1 {
        1
    } else {
        s
    }
}

pub fn next_page_size(base: u64, attempt: u64) -> (r: u64)
    requires
        attempt >= 1,
    ensures
        r as int == next_page_size_spec(base as int, attempt as int),
{
    let s = base / attempt;
    if s < 1 {
        1
    } else {
        s
    }
}

/// Addition on a 64-bit diagnostic counter that stops at the top
/// rather than wrapping.
pub open spec fn sat64(x: int) -> int {
    if x > u64::MAX {
        u64::MAX as int
    } else {
        x
    }
}

fn sat_add(a: u64, b: u64) -> (r: u64)
    ensures
        r as int == sat64(a as int + b as int),
{
    if a > u64::MAX - b {
        u64::MAX
    } else {
        a + b
    }
}

pub open spec fn opt_err_view(e: Option<OrbFdwError>) -> Option<ErrorView> {
    match e {
        Option::Some(err) => Option::Some(err@),
        Option::None => Option::None,
    }
}

pub open spec fn or_else(a: Option<ErrorView>, b: Option<ErrorView>) -> Option<ErrorView> {
    if a is Some {
        a
    } else {
        b
    }
}

/// The rows the decoded records of one page project to, in source
/// order.
pub open spec fn page_rows_v(
    items: Seq<Result<JsonView, Seq<char>>>,
    fields: Seq<FieldMappingView>,
    cols: Seq<Seq<char>>,
) -> Seq<Seq<(Seq<char>, Option<CellView>)>> {
    rows_of_items(ok_items(items), fields, cols)
}

/// The last item-level failure of one page: a decode failure as
/// `JsonDecodeError`, a coercion failure as reported by projection.
pub open spec fn page_last_err_v(
    items: Seq<Result<JsonView, Seq<char>>>,
    fields: Seq<FieldMappingView>,
    cols: Seq<Seq<char>>,
) -> Option<ErrorView>
    decreases items.len(),
{
    if items.len() == 0 {
        Option::None
    } else {
        match items.last() {
            Result::Err(m) => Option::Some(ErrorView::JsonDecodeError(m)),
            Result::Ok(o) => match projected_row_err(o, fields, cols) {
                Option::Some(e) => Option::Some(e),
                Option::None => page_last_err_v(items.drop_last(), fields, cols),
            },
        }
    }
}

/// The dynamic state of one scan.
pub struct ScanView {
    pub rows: Seq<Seq<(Seq<char>, Option<CellView>)>>,
    pub skipped: int,
    pub last_error: Option<ErrorView>,
    pub cursor: Option<Seq<char>>,
    pub exhausted: bool,
    pub failed: Option<ErrorView>,
    pub attempt: int,
}

/// How one fetch outcome moves a scan forward.
///
/// A fetched page appends its rows in source order, counts its
/// dropped records, takes over the cursor, ends pagination when the
/// page carries no cursor or no items, and resets the attempt count
/// for the next page. A transient failure spends one attempt and, on
/// the last allowed one, fails the scan with `FetchRetriesExhausted`;
/// a fatal failure fails it at once. A failed scan keeps every row
/// produced before.
pub open spec fn scan_step(
    st: ScanView,
    fields: Seq<FieldMappingView>,
    cols: Seq<Seq<char>>,
    max_attempts: int,
    o: FetchOutcomeView,
) -> ScanView {
    match o {
        FetchOutcomeView::Fetched(p) => ScanView {
            rows: st.rows + page_rows_v(p.items, fields, cols),
            skipped: sat64(st.skipped + skipped_count(p.items)),
            last_error: or_else(page_last_err_v(p.items, fields, cols), st.last_error),
            cursor: p.next_cursor,
            exhausted: p.next_cursor is None || p.items.len() == 0,
            failed: Option::None,
            attempt: 1,
        },
        FetchOutcomeView::Failed(FetchErrorView::Transient(m)) => {
            if st.attempt < max_attempts {
                ScanView {
                    attempt: st.attempt + 1,
                    last_error: Option::Some(ErrorView::TransientFetchError(m)),
                    ..st
                }
            } else {
                ScanView { failed: Option::Some(ErrorView::FetchRetriesExhausted), ..st }
            }
        },
        FetchOutcomeView::Failed(FetchErrorView::Fatal(m)) => ScanView {
            failed: Option::Some(ErrorView::FatalFetchError(m)),
            ..st
        },
    }
}

/// A scan replayed against a sequence of fetch outcomes, one per
/// attempt, until the feed runs out, pagination ends, or the scan
/// fails.
pub open spec fn scan_run(
    st: ScanView,
    fields: Seq<FieldMappingView>,
    cols: Seq<Seq<char>>,
    max_attempts: int,
    feed: Seq<FetchOutcomeView>,
) -> ScanView
    decreases feed.len(),
{
    if feed.len() == 0 || st.exhausted || st.failed is Some {
        st
    } else {
        scan_run(
            scan_step(st, fields, cols, max_attempts, feed[0]),
            fields,
            cols,
            max_attempts,
            feed.drop_first(),
        )
    }
}

/// The state every scan starts from.
pub open spec fn initial_scan_view() -> ScanView {
    ScanView {
        rows: Seq::empty(),
        skipped: 0,
        last_error: Option::None,
        cursor: Option::None,
        exhausted: false,
        failed: Option::None,
        attempt: 1,
    }
}

/// First value registered under `key`, if any.
pub open spec fn opt_lookup(opts: Seq<(Seq<char>, Seq<char>)>, key: Seq<char>) -> Option<Seq<char>>
    decreases opts.len(),
{
    if opts.len() == 0 {
        Option::None
    } else if opts[0].0 == key {
        Option::Some(opts[0].1)
    } else {
        opt_lookup(opts.drop_first(), key)
    }
}

pub open spec fn options_view(opts: Seq<(String, String)>) -> Seq<(Seq<char>, Seq<char>)> {
    opts.map_values(|o: (String, String)| (o.0@, o.1@))
}

proof fn lemma_opt_lookup_skip(opts: Seq<(Seq<char>, Seq<char>)>, key: Seq<char>, i: int)
    requires
        0 <= i <= opts.len(),
        forall|j: int| 0 <= j < i ==> opts[j].0 != key,
    ensures
        opt_lookup(opts, key) == opt_lookup(opts.skip(i), key),
    decreases i,
{
    if i > 0 {
        assert(opts.drop_first().skip(i - 1) =~= opts.skip(i));
        lemma_opt_lookup_skip(opts.drop_first(), key, i - 1);
    } else {
        assert(opts.skip(0) =~= opts);
    }
}

/// Value of an option, if it was given.
#[verifier::loop_isolation(false)]
pub fn get_option(options: &Vec<(String, String)>, key: &String) -> (r: Option<String>)
    ensures
        opt_str_view(r) == opt_lookup(options_view(options@), key@),
{
    let ghost ov = options_view(options@);
    let n = options.len();
    let mut i: usize = 0;
    while i < n
        invariant
            0 <= i <= n,
            forall|j: int| 0 <= j < i ==> ov[j].0 != key@,
        decreases n - i,
    {
        if options[i].0 == *key {
            proof {
                lemma_opt_lookup_skip(ov, key@, i as int);
                assert(ov.skip(i as int)[0] == ov[i as int]);
            }
            return Option::Some(options[i].1.clone());
        }
        i = i + 1;
    }
    proof {
        lemma_opt_lookup_skip(ov, key@, n as int);
        assert(ov.skip(n as int) =~= Seq::empty());
    }
    Option::None
}

/// Value of an option that must be given: its absence is the error
/// `MissingRequiredOption`, named after the option.
pub fn require_option(options: &Vec<(String, String)>, key: &String) -> (r: Result<
    String,
    OrbFdwError,
>)
    ensures
        (match r {
            Result::Ok(v) => opt_lookup(options_view(options@), key@) == Option::Some(v@),
            Result::Err(e) => opt_lookup(options_view(options@), key@) is None && e@
                == ErrorView::MissingRequiredOption(key@),
        }),
{
    match get_option(options, key) {
        Option::Some(v) => Result::Ok(v),
        Option::None => Result::Err(OrbFdwError::MissingRequiredOption(key.clone())),
    }
}

/// The API key a scan runs with: the `api_key` option, or the
/// process-level fallback the caller read from its environment.
pub open spec fn chosen_api_key(
    opts: Seq<(Seq<char>, Seq<char>)>,
    env_key: Option<Seq<char>>,
) -> Option<Seq<char>> {
    match opt_lookup(opts, "api_key"@) {
        Option::Some(k) => Option::Some(k),
        Option::None => env_key,
    }
}

pub const DEFAULT_MAX_ATTEMPTS: u64 = 3;

/// One scan in progress: its schema and requested columns, fixed at
/// `begin_scan`; its buffered rows, cursor and retry state, moved
/// only by the driver's own methods. Nothing of it outlives or is
/// shared across scans.
pub struct ScanDriver {
    pub schema: ResourceSchema,
    pub columns: Vec<String>,
    pub api_key: String,
    pub base_page_size: u64,
    pub max_attempts: u64,
    pub rows: Vec<Row>,
    pub skipped: u64,
    pub last_error: Option<OrbFdwError>,
    pub cursor: Option<String>,
    pub exhausted: bool,
    pub failed: Option<OrbFdwError>,
    pub attempt: u64,
}

impl View for ScanDriver {
    type V = ScanView;

    open spec fn view(&self) -> ScanView {
        ScanView {
            rows: crate::page::row_views(self.rows@),
            skipped: self.skipped as int,
            last_error: opt_err_view(self.last_error),
            cursor: opt_str_view(self.cursor),
            exhausted: self.exhausted,
            failed: opt_err_view(self.failed),
            attempt: self.attempt as int,
        }
    }
}

impl ScanDriver {
    /// The retry counter stays within its allowance; the allowance
    /// itself admits the backoff computation.
    pub open spec fn wf(&self) -> bool {
        &&& 1 <= self.attempt as int <= self.max_attempts as int
        &&& self.max_attempts <= 62
    }

    pub open spec fn fields(&self) -> Seq<FieldMappingView> {
        self.schema@.fields
    }

    pub open spec fn cols(&self) -> Seq<Seq<char>> {
        name_views(self.columns@)
    }

    /// The statics of a scan: what `begin_scan` fixed.
    pub open spec fn same_setup(&self, other: &ScanDriver) -> bool {
        &&& self.schema@ == other.schema@
        &&& self.columns@ == other.columns@
        &&& self.api_key@ == other.api_key@
        &&& self.base_page_size == other.base_page_size
        &&& self.max_attempts == other.max_attempts
    }

    /// Opens a scan: the resource must be registered and an API key
    /// must be at hand, from the options or from the caller's
    /// process-level fallback; each failure is its own error, no scan
    /// opens, and no rows are ever produced for it.
    pub fn begin_scan(
        resource: &String,
        columns: Vec<String>,
        options: &Vec<(String, String)>,
        env_api_key: Option<String>,
    ) -> (r: Result<ScanDriver, OrbFdwError>)
        ensures
            (match r {
                Result::Ok(d) => {
                    &&& registered(resource@)
                    &&& chosen_api_key(options_view(options@), opt_str_view(env_api_key))
                        == Option::Some(d.api_key@)
                    &&& d.schema@.name == resource@
                    &&& d.schema@.fields == registry_fields(resource@)
                    &&& d.columns@ == columns@
                    &&& d.base_page_size as int == crate::schema::registry_page_size(resource@)
                    &&& d.max_attempts == DEFAULT_MAX_ATTEMPTS
                    &&& d@ == initial_scan_view()
                    &&& d.wf()
                },
                Result::Err(e) => {
                    ||| (!registered(resource@) && e@ == ErrorView::UnknownResource(resource@))
                    ||| (registered(resource@) && chosen_api_key(
                        options_view(options@),
                        opt_str_view(env_api_key),
                    ) is None && e@ == ErrorView::ApiKeyNotFound)
                },
            }),
    {
        let schema = match schema_for(resource) {
            Result::Ok(s) => s,
            Result::Err(e) => {
                return Result::Err(e);
            },
        };
        let subscriptions: String = String::from_str("subscriptions");
        let base_page_size: u64 = if *resource == subscriptions {
            75
        } else {
            500
        };
        let key_opt: String = String::from_str("api_key");
        let api_key = match get_option(options, &key_opt) {
            Option::Some(k) => k,
            Option::None => match env_api_key {
                Option::Some(k) => k,
                Option::None => {
                    return Result::Err(OrbFdwError::ApiKeyNotFound);
                },
            },
        };
        let d = ScanDriver {
            schema,
            columns,
            api_key,
            base_page_size,
            max_attempts: DEFAULT_MAX_ATTEMPTS,
            rows: Vec::new(),
            skipped: 0,
            last_error: Option::None,
            cursor: Option::None,
            exhausted: false,
            failed: Option::None,
            attempt: 1,
        };
        proof {
            assert(crate::page::row_views(d.rows@) =~= Seq::<
                Seq<(Seq<char>, Option<CellView>)>,
            >::empty());
        }
        Result::Ok(d)
    }

    /// What to fetch next: the resource, the cursor the last page
    /// handed out, and the page size shrunk by the retries already
    /// spent; nothing once pagination has ended or the scan has
    /// failed.
    pub fn next_request(&self) -> (r: Option<PageRequest>)
        requires
            self.wf(),
        ensures
            (match r {
                Option::Some(req) => {
                    &&& !self@.exhausted
                    &&& self@.failed is None
                    &&& req.resource@ == self.schema@.name
                    &&& opt_str_view(req.cursor) == self@.cursor
                    &&& req.page_size as int == next_page_size_spec(
                        self.base_page_size as int,
                        self@.attempt,
                    )
                },
                Option::None => self@.exhausted || self@.failed is Some,
            }),
    {
        if self.exhausted {
            return Option::None;
        }
        match &self.failed {
            Option::Some(_) => Option::None,
            Option::None => {
                let cursor: Option<String> = match &self.cursor {
                    Option::Some(c) => Option::Some(c.clone()),
                    Option::None => Option::None,
                };
                Option::Some(
                    PageRequest {
                        resource: self.schema.name.clone(),
                        cursor,
                        page_size: next_page_size(self.base_page_size, self.attempt),
                    },
                )
            },
        }
    }

    /// Takes one fetched page in: projects its records in source
    /// order onto the requested columns and buffers the rows, drops
    /// records that failed to decode, follows the cursor, and ends
    /// pagination on a page with no cursor or no items.
    #[verifier::loop_isolation(false)]
    pub fn on_page(&mut self, page: Page)
        requires
            old(self).wf(),
            !old(self)@.exhausted,
            old(self)@.failed is None,
        ensures
            final(self)@ == scan_step(
                old(self)@,
                old(self).fields(),
                old(self).cols(),
                old(self).max_attempts as int,
                FetchOutcomeView::Fetched(page@),
            ),
            final(self).same_setup(old(self)),
            final(self).wf(),
    {
        let ghost iv = item_views(page.items@);
        let ghost fields = self.fields();
        let ghost cv = self.cols();
        let ghost rows0 = crate::page::row_views(self.rows@);
        let mut pskipped: u64 = 0;
        let mut perr: Option<OrbFdwError> = Option::None;
        let n = page.items.len();
        let mut i: usize = 0;
        proof {
            assert(iv.take(0) =~= Seq::<Result<JsonView, Seq<char>>>::empty());
            assert(rows0 + page_rows_v(iv.take(0), fields, cv) =~= rows0);
        }
        while i < n
            invariant
                0 <= i <= n,
                n == page.items@.len(),
                iv == item_views(page.items@),
                fields == self.fields(),
                cv == self.cols(),
                self.same_setup(old(self)),
                self.wf(),
                self.skipped == old(self).skipped,
                self.last_error == old(self).last_error,
                self.cursor == old(self).cursor,
                self.exhausted == old(self).exhausted,
                self.failed == old(self).failed,
                self.attempt == old(self).attempt,
                crate::page::row_views(self.rows@) == rows0 + page_rows_v(
                    iv.take(i as int),
                    fields,
                    cv,
                ),
                pskipped as int == skipped_count(iv.take(i as int)),
                (match perr {
                    Option::Some(e) => page_last_err_v(iv.take(i as int), fields, cv)
                        == Option::Some(e@),
                    Option::None => page_last_err_v(iv.take(i as int), fields, cv) is None,
                }),
            decreases n - i,
        {
            proof {
                assert(iv.take(i + 1).drop_last() =~= iv.take(i as int));
                assert(iv.take(i + 1).last() == iv[i as int]);
                crate::page::lemma_skipped_count_bound(iv.take(i as int));
            }
            match &page.items[i] {
                Result::Ok(obj) => {
                    let ghost before = crate::page::row_views(self.rows@);
                    let (row, rerr) = project(obj, &self.schema, &self.columns);
                    self.rows.push(row);
                    match rerr {
                        Option::Some(e) => {
                            perr = Option::Some(e);
                        },
                        Option::None => {},
                    }
                    proof {
                        assert(crate::page::row_views(self.rows@) =~= before.push(
                            self.rows@.last()@,
                        ));
                        assert(ok_items(iv.take(i + 1)) =~= ok_items(iv.take(i as int)).push(
                            iv[i as int]->Ok_0,
                        ));
                        assert(page_rows_v(iv.take(i + 1), fields, cv) =~= page_rows_v(
                            iv.take(i as int),
                            fields,
                            cv,
                        ).push(projected_row(iv[i as int]->Ok_0, fields, cv)));
                        assert(rows0 + page_rows_v(iv.take(i + 1), fields, cv) =~= (rows0
                            + page_rows_v(iv.take(i as int), fields, cv)).push(
                            projected_row(iv[i as int]->Ok_0, fields, cv),
                        ));
                    }
                },
                Result::Err(m) => {
                    pskipped = pskipped + 1;
                    perr = Option::Some(OrbFdwError::JsonDecodeError(m.clone()));
                    proof {
                        assert(ok_items(iv.take(i + 1)) =~= ok_items(iv.take(i as int)));
                        assert(page_rows_v(iv.take(i + 1), fields, cv) =~= page_rows_v(
                            iv.take(i as int),
                            fields,
                            cv,
                        ));
                    }
                },
            }
            i = i + 1;
        }
        proof {
            assert(iv.take(n as int) =~= iv);
        }
        self.skipped = sat_add(self.skipped, pskipped);
        match perr {
            Option::Some(e) => {
                self.last_error = Option::Some(e);
            },
            Option::None => {},
        }
        let exhausted = match &page.next_cursor {
            Option::Some(_) => page.items.len() == 0,
            Option::None => true,
        };
        self.cursor = page.next_cursor;
        self.exhausted = exhausted;
        self.attempt = 1;
    }

    /// Takes one failed attempt in: a transient failure within the
    /// allowance asks the caller to wait out an exponential backoff
    /// and try again; the last allowed transient failure fails the
    /// scan with `FetchRetriesExhausted`; a fatal failure fails it at
    /// once and is never retried. Rows already produced stay.
    pub fn on_fetch_error(&mut self, err: FetchError) -> (a: FetchAction)
        requires
            old(self).wf(),
            !old(self)@.exhausted,
            old(self)@.failed is None,
        ensures
            final(self)@ == scan_step(
                old(self)@,
                old(self).fields(),
                old(self).cols(),
                old(self).max_attempts as int,
                FetchOutcomeView::Failed(err@),
            ),
            final(self).same_setup(old(self)),
            final(self).wf(),
            final(self).rows@ == old(self).rows@,
            (match err {
                FetchError::Transient(_) => {
                    if old(self)@.attempt < old(self).max_attempts as int {
                        a == (FetchAction::Retry {
                            delay_secs: pow2(old(self)@.attempt - 1) as u64,
                        })
                    } else {
                        a == FetchAction::Stop
                    }
                },
                FetchError::Fatal(_) => a == FetchAction::Stop,
            }),
    {
        match err {
            FetchError::Transient(m) => {
                if self.attempt < self.max_attempts {
                    let delay = backoff_secs(self.attempt);
                    self.attempt = self.attempt + 1;
                    self.last_error = Option::Some(OrbFdwError::TransientFetchError(m));
                    FetchAction::Retry { delay_secs: delay }
                } else {
                    self.failed = Option::Some(OrbFdwError::FetchRetriesExhausted);
                    FetchAction::Stop
                }
            },
            FetchError::Fatal(m) => {
                self.failed = Option::Some(OrbFdwError::FatalFetchError(m));
                FetchAction::Stop
            },
        }
    }

    /// Hands the buffered rows out one at a time, oldest first;
    /// nothing once the buffer is empty.
    pub fn next_row(&mut self) -> (r: Option<Row>)
        ensures
            final(self).same_setup(old(self)),
            final(self).wf() == old(self).wf(),
            (match r {
                Option::Some(row) => old(self)@.rows.len() > 0 && row@ == old(self)@.rows[0]
                    && final(self)@ == (ScanView { rows: old(self)@.rows.drop_first(), ..old(
                    self,
                )@ }),
                Option::None => old(self)@.rows.len() == 0 && final(self)@ == old(self)@,
            }),
    {
        if self.rows.len() == 0 {
            return Option::None;
        }
        let row = self.rows.remove(0);
        proof {
            assert(crate::page::row_views(self.rows@) =~= crate::page::row_views(
                old(self).rows@,
            ).drop_first());
        }
        Option::Some(row)
    }

    /// The error a failed scan stopped on, if any; rows produced
    /// before the failure are still drained by `next_row`.
    pub fn scan_error(&self) -> (r: &Option<OrbFdwError>)
        ensures
            opt_err_view(*r) == self@.failed,
    {
        &self.failed
    }

    /// Closes the scan: the buffer is released and pagination is
    /// over.
    pub fn end_scan(&mut self)
        ensures
            final(self).same_setup(old(self)),
            final(self)@.rows.len() == 0,
            final(self)@.exhausted,
    {
        self.rows = Vec::new();
        self.exhausted = true;
        proof {
            assert(crate::page::row_views(self.rows@) =~= Seq::<
                Seq<(Seq<char>, Option<CellView>)>,
            >::empty());
        }
    }

    /// Replays a whole scan against a feed of fetch outcomes, one
    /// outcome per attempt, applying each in order until the feed
    /// runs out, pagination ends, or the scan fails: the loop always
    /// terminates, and never asks for a page beyond a failure or past
    /// exhaustion.
    pub fn run_scan(&mut self, feed: Vec<FetchOutcome>)
        requires
            old(self).wf(),
        ensures
            final(self)@ == scan_run(
                old(self)@,
                old(self).fields(),
                old(self).cols(),
                old(self).max_attempts as int,
                outcome_views(feed@),
            ),
            final(self).same_setup(old(self)),
            final(self).wf(),
    {
        let ghost fields = self.fields();
        let ghost cv = self.cols();
        let ghost max = self.max_attempts as int;
        let mut feed = feed;
        let ghost feed0 = feed@;
        loop
            invariant
                self.wf(),
                self.same_setup(old(self)),
                fields == self.fields(),
                cv == self.cols(),
                max == self.max_attempts as int,
                scan_run(old(self)@, fields, cv, max, outcome_views(feed0)) == scan_run(
                    self@,
                    fields,
                    cv,
                    max,
                    outcome_views(feed@),
                ),
            ensures
                scan_run(old(self)@, fields, cv, max, outcome_views(feed0)) == self@,
            decreases feed@.len(),
        {
            if self.exhausted {
                break ;
            }
            match &self.failed {
                Option::Some(_) => {
                    break ;
                },
                Option::None => {},
            }
            if feed.len() == 0 {
                break ;
            }
            let ghost fv = outcome_views(feed@);
            let o = feed.remove(0);
            proof {
                assert(outcome_views(feed@) =~= fv.drop_first());
                assert(fv[0] == o@);
            }
            match o {
                FetchOutcome::Fetched(p) => {
                    self.on_page(p);
                },
                FetchOutcome::Failed(e) => {
                    let _a = self.on_fetch_error(e);
                },
            }
        }
    }
}

/// A feed in which every attempt succeeds: each entry one page whose
/// records all decoded, each page but the last carrying a cursor and
/// at least one item, the last carrying no cursor.
pub open spec fn clean_pages(feed: Seq<FetchOutcomeView>) -> bool {
    forall|i: int|
        0 <= i < feed.len() ==> {
            &&& #[trigger] feed[i] matches FetchOutcomeView::Fetched(p)
            &&& (forall|j: int| 0 <= j < p.items.len() ==> (#[trigger] p.items[j]) is Ok)
            &&& (i < feed.len() - 1 ==> p.next_cursor is Some && p.items.len() > 0)
            &&& (i == feed.len() - 1 ==> p.next_cursor is None)
        }
}

/// The rows of a feed's pages, page by page and within a page in
/// source order.
pub open spec fn feed_rows(
    feed: Seq<FetchOutcomeView>,
    fields: Seq<FieldMappingView>,
    cols: Seq<Seq<char>>,
) -> Seq<Seq<(Seq<char>, Option<CellView>)>>
    decreases feed.len(),
{
    if feed.len() == 0 {
        Seq::empty()
    } else {
        match feed[0] {
            FetchOutcomeView::Fetched(p) => page_rows_v(p.items, fields, cols) + feed_rows(
                feed.drop_first(),
                fields,
                cols,
            ),
            FetchOutcomeView::Failed(_) => feed_rows(feed.drop_first(), fields, cols),
        }
    }
}

proof fn lemma_skipped_count_zero(items: Seq<Result<JsonView, Seq<char>>>)
    requires
        forall|j: int| 0 <= j < items.len() ==> (#[trigger] items[j]) is Ok,
    ensures
        skipped_count(items) == 0,
    decreases items.len(),
{
    if items.len() > 0 {
        assert(forall|j: int|
            0 <= j < items.drop_last().len() ==> items.drop_last()[j] == items[j]);
        lemma_skipped_count_zero(items.drop_last());
    }
}

/// A page whose records all decoded projects one row per record.
pub proof fn lemma_page_rows_len(
    items: Seq<Result<JsonView, Seq<char>>>,
    fields: Seq<FieldMappingView>,
    cols: Seq<Seq<char>>,
)
    requires
        forall|j: int| 0 <= j < items.len() ==> (#[trigger] items[j]) is Ok,
    ensures
        page_rows_v(items, fields, cols).len() == items.len(),
    decreases items.len(),
{
    if items.len() > 0 {
        assert(forall|j: int|
            0 <= j < items.drop_last().len() ==> items.drop_last()[j] == items[j]);
        lemma_page_rows_len(items.drop_last(), fields, cols);
    }
}

/// A full scan of a feed of successful pages, the last one with no
/// cursor, ends by exhaustion, fails nowhere, drops nothing, and
/// yields exactly the pages' rows, page by page and within a page in
/// source order, appended to whatever was buffered before.
pub proof fn lemma_scan_completes(
    st: ScanView,
    fields: Seq<FieldMappingView>,
    cols: Seq<Seq<char>>,
    max_attempts: int,
    feed: Seq<FetchOutcomeView>,
)
    requires
        !st.exhausted,
        st.failed is None,
        0 <= st.skipped <= u64::MAX,
        clean_pages(feed),
        feed.len() > 0,
    ensures
        ({
            let end = scan_run(st, fields, cols, max_attempts, feed);
            &&& end.exhausted
            &&& end.failed is None
            &&& end.rows == st.rows + feed_rows(feed, fields, cols)
            &&& end.skipped == st.skipped
        }),
    decreases feed.len(),
{
    assert(clean_pages(feed));
    assert(feed[0] matches FetchOutcomeView::Fetched(_));
    let p = feed[0]->Fetched_0;
    lemma_skipped_count_zero(p.items);
    let st1 = scan_step(st, fields, cols, max_attempts, feed[0]);
    if feed.len() == 1 {
        assert(st1.exhausted);
        assert(feed.drop_first().len() == 0);
        assert(scan_run(st1, fields, cols, max_attempts, feed.drop_first()) == st1);
        assert(feed_rows(feed.drop_first(), fields, cols) =~= Seq::<
            Seq<(Seq<char>, Option<CellView>)>,
        >::empty());
        assert(feed_rows(feed, fields, cols) =~= page_rows_v(p.items, fields, cols));
        assert(st1.rows =~= st.rows + feed_rows(feed, fields, cols));
    } else {
        assert(!st1.exhausted);
        let rest = feed.drop_first();
        assert forall|i: int| 0 <= i < rest.len() implies {
            &&& #[trigger] rest[i] matches FetchOutcomeView::Fetched(q)
            &&& (forall|j: int| 0 <= j < q.items.len() ==> (#[trigger] q.items[j]) is Ok)
            &&& (i < rest.len() - 1 ==> q.next_cursor is Some && q.items.len() > 0)
            &&& (i == rest.len() - 1 ==> q.next_cursor is None)
        } by {
            assert(rest[i] == feed[i + 1]);
            assert(feed[i + 1] matches FetchOutcomeView::Fetched(_));
        }
        lemma_scan_completes(st1, fields, cols, max_attempts, rest);
        assert(st.rows + feed_rows(feed, fields, cols) =~= (st.rows + page_rows_v(
            p.items,
            fields,
            cols,
        )) + feed_rows(rest, fields, cols));
    }
}

/// A feed of `n` clean pages of `m` items each yields exactly
/// `n * m` rows.
pub proof fn lemma_feed_rows_count(
    feed: Seq<FetchOutcomeView>,
    fields: Seq<FieldMappingView>,
    cols: Seq<Seq<char>>,
    m: int,
)
    requires
        clean_pages(feed),
        forall|i: int|
            0 <= i < feed.len() ==> (#[trigger] feed[i])->Fetched_0.items.len() == m,
    ensures
        feed_rows(feed, fields, cols).len() == feed.len() * m,
    decreases feed.len(),
{
    if feed.len() == 0 {
    } else {
        assert(feed[0] matches FetchOutcomeView::Fetched(_));
        let p = feed[0]->Fetched_0;
        lemma_page_rows_len(p.items, fields, cols);
        let rest = feed.drop_first();
        assert forall|i: int| 0 <= i < rest.len() implies {
            &&& #[trigger] rest[i] matches FetchOutcomeView::Fetched(q)
            &&& (forall|j: int| 0 <= j < q.items.len() ==> (#[trigger] q.items[j]) is Ok)
            &&& (i < rest.len() - 1 ==> q.next_cursor is Some && q.items.len() > 0)
            &&& (i == rest.len() - 1 ==> q.next_cursor is None)
        } by {
            assert(rest[i] == feed[i + 1]);
            assert(feed[i + 1] matches FetchOutcomeView::Fetched(_));
        }
        assert(forall|i: int|
            0 <= i < rest.len() ==> (#[trigger] rest[i])->Fetched_0.items.len() == m) by {
            assert(forall|i: int| 0 <= i < rest.len() ==> rest[i] == feed[i + 1]);
        }
        lemma_feed_rows_count(rest, fields, cols, m);
        assert(feed.len() * m == m + (feed.len() - 1) * m) by (nonlinear_arith);
    }
}

/// A run of identical transient failures.
pub open spec fn transient_run(k: nat, m: Seq<char>) -> Seq<FetchOutcomeView> {
    Seq::new(k, |i: int| FetchOutcomeView::Failed(FetchErrorView::Transient(m)))
}

/// The state after `k` retried transient failures: the same scan,
/// `k` attempts further along.
pub open spec fn after_transients(st: ScanView, k: nat, m: Seq<char>) -> ScanView {
    if k == 0 {
        st
    } else {
        ScanView {
            attempt: st.attempt + k,
            last_error: Option::Some(ErrorView::TransientFetchError(m)),
            ..st
        }
    }
}

/// Transient failures within the allowance only spend attempts: they
/// produce no row, drop nothing, and move no cursor.
pub proof fn lemma_transients_spend_attempts(
    st: ScanView,
    fields: Seq<FieldMappingView>,
    cols: Seq<Seq<char>>,
    max_attempts: int,
    k: nat,
    m: Seq<char>,
    rest: Seq<FetchOutcomeView>,
)
    requires
        !st.exhausted,
        st.failed is None,
        st.attempt + k <= max_attempts,
    ensures
        scan_run(st, fields, cols, max_attempts, transient_run(k, m) + rest) == scan_run(
            after_transients(st, k, m),
            fields,
            cols,
            max_attempts,
            rest,
        ),
    decreases k,
{
    if k == 0 {
        assert(transient_run(0, m) + rest =~= rest);
    } else {
        let f = transient_run(k, m) + rest;
        assert(f.len() > 0);
        assert(f[0] == FetchOutcomeView::Failed(FetchErrorView::Transient(m)));
        let st1 = scan_step(st, fields, cols, max_attempts, f[0]);
        assert(f.drop_first() =~= transient_run((k - 1) as nat, m) + rest);
        lemma_transients_spend_attempts(
            st1,
            fields,
            cols,
            max_attempts,
            (k - 1) as nat,
            m,
            rest,
        );
        assert(after_transients(st1, (k - 1) as nat, m) == after_transients(st, k, m));
    }
}

/// Transient failures on the first `k` attempts followed by success
/// yield exactly the fetched page's rows, appended once: retries
/// repeat no row.
pub proof fn lemma_retry_then_success(
    st: ScanView,
    fields: Seq<FieldMappingView>,
    cols: Seq<Seq<char>>,
    max_attempts: int,
    k: nat,
    m: Seq<char>,
    p: PageView,
)
    requires
        !st.exhausted,
        st.failed is None,
        st.attempt == 1,
        k < max_attempts,
    ensures
        ({
            let end = scan_run(
                st,
                fields,
                cols,
                max_attempts,
                transient_run(k, m) + seq![FetchOutcomeView::Fetched(p)],
            );
            &&& end.rows == st.rows + page_rows_v(p.items, fields, cols)
            &&& end.failed is None
            &&& end.attempt == 1
            &&& end.cursor == p.next_cursor
        }),
{
    lemma_transients_spend_attempts(
        st,
        fields,
        cols,
        max_attempts,
        k,
        m,
        seq![FetchOutcomeView::Fetched(p)],
    );
    let stb = after_transients(st, k, m);
    let f1 = seq![FetchOutcomeView::Fetched(p)];
    let st2 = scan_step(stb, fields, cols, max_attempts, f1[0]);
    assert(f1.drop_first().len() == 0);
    assert(scan_run(st2, fields, cols, max_attempts, f1.drop_first()) == st2);
    assert(scan_run(stb, fields, cols, max_attempts, f1) == st2);
    assert(st2.rows =~= st.rows + page_rows_v(p.items, fields, cols));
}

/// Transient failures on every allowed attempt end the scan with
/// `FetchRetriesExhausted` after exactly `max_attempts` attempts,
/// keeping every row produced before.
pub proof fn lemma_retries_exhausted(
    st: ScanView,
    fields: Seq<FieldMappingView>,
    cols: Seq<Seq<char>>,
    max_attempts: int,
    m: Seq<char>,
)
    requires
        !st.exhausted,
        st.failed is None,
        st.attempt == 1,
        max_attempts >= 1,
    ensures
        ({
            let end = scan_run(
                st,
                fields,
                cols,
                max_attempts,
                transient_run(max_attempts as nat, m),
            );
            &&& end.failed == Option::<ErrorView>::Some(ErrorView::FetchRetriesExhausted)
            &&& end.rows == st.rows
        }),
{
    lemma_transients_spend_attempts(
        st,
        fields,
        cols,
        max_attempts,
        (max_attempts - 1) as nat,
        m,
        transient_run(1, m),
    );
    assert(transient_run(max_attempts as nat, m) =~= transient_run(
        (max_attempts - 1) as nat,
        m,
    ) + transient_run(1, m));
    let stb = after_transients(st, (max_attempts - 1) as nat, m);
    assert(stb.attempt == max_attempts);
    let f1 = transient_run(1, m);
    assert(f1[0] == FetchOutcomeView::Failed(FetchErrorView::Transient(m)));
    let st2 = scan_step(stb, fields, cols, max_attempts, f1[0]);
    assert(st2.failed == Option::<ErrorView>::Some(ErrorView::FetchRetriesExhausted));
    assert(f1.drop_first().len() == 0);
    assert(scan_run(st2, fields, cols, max_attempts, f1.drop_first()) == st2);
    assert(scan_run(stb, fields, cols, max_attempts, f1) == st2);
}

} // verus!
