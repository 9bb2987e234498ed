//! The engine core: one process-wide actor that owns the child engine.
//!
//! This module holds the actor's verified state machine.  The host
//! application owns the real child process, its three streams and the
//! scheduler; it drives this state with plain events (a line arrived,
//! a write succeeded or failed, the output stream ended, a restart was
//! attempted) and performs the actions the state machine hands back.
//! Everything the actor decides — how requests are normalized, encoded,
//! registered, routed, timed out and failed over — is proved here.

use vstd::prelude::*;

use crate::config::KatagoConfig;
use crate::text::lower_char;
use crate::text::strs_view;
use crate::text::lower_seq;
use crate::text::lower_char_exec;
use crate::text::upper_char;
use crate::text::upper_char_exec;
use crate::error::KatagoError;
use crate::ids::fresh_id;
use crate::jsonio::json_error_field;
use crate::jsonio::json_line_id;
use crate::jsonio::line_error_field;
use crate::jsonio::line_id;
use crate::pending::PendingTable;
use crate::wire::action_json;
use crate::wire::encode_action;
use crate::wire::encode_query;
use crate::wire::line_clean;
use crate::wire::query_json;
use crate::wire::AnalysisQuery;

verus! {

/// Keepalive interval in seconds: how often the supervisor wakes to
/// ping the engine or to restart it.
pub const KEEPALIVE_INTERVAL_SECS: u64 = 30;

/// How many times the supervisor restarts a dead engine before it
/// surrenders and merely keeps observing.
pub const MAX_RESTART_ATTEMPTS: u32 = 5;

/// How long the supervisor waits before a restart attempt, in seconds.
pub const RESTART_DELAY_SECS: u64 = 5;

/// How long the supervisor waits for a fresh engine to initialize
/// before resuming ticks, in seconds.
pub const RESTART_INIT_WAIT_SECS: u64 = 5;

/// An analysis request as the core consumes it: plain values only.
/// Komi is carried in half points (twice the komi value); stones and
/// the first player use single lowercase letter colors.
pub struct AnalysisRequest {
    /// Moves played so far, in coordinate notation (for example `D4`).
    pub moves: Vec<String>,
    /// Game rules; defaulted from the komi when absent.
    pub rules: Option<String>,
    /// Komi in half points; defaulted to 15 (a komi of 7.5) when absent.
    pub komi_half: Option<i32>,
    pub board_x_size: u8,
    pub board_y_size: u8,
    /// Initial stones of handicap games, as `(color, coordinate)`.
    pub initial_stones: Option<Vec<(String, String)>>,
    /// The player to move at turn zero; inferred when absent.
    pub initial_player: Option<String>,
    pub max_visits: Option<u32>,
    pub include_ownership: Option<bool>,
    pub include_policy: Option<bool>,
    pub include_pv_visits: Option<bool>,
    /// Opaque pre-rendered JSON object of engine overrides.
    pub override_settings: Option<String>,
    /// The caller's own correlation id, if it supplied one.
    pub request_id: Option<String>,
}

/// The default board edge length.
pub fn default_board_size() -> (n: u8)
    ensures
        n == 19,
{
    19
}

/// The column number of a coordinate letter: `A` is 1 and `I` is
/// skipped, so `H` is 8 and `J` is 9.  Zero for `I` and for anything
/// that is not a letter.
pub open spec fn column_number(c: char) -> int {
    let u = upper_char(c);
    if u >= 'A' && u <= 'H' {
        u as int - 'A' as int + 1
    } else if u >= 'J' && u <= 'Z' {
        u as int - 'A' as int
    } else {
        0
    }
}

/// The value of a non-empty all-digit row string, most significant
/// digit first; nothing if any character is not a digit.
pub open spec fn row_value(s: Seq<char>) -> Option<int>
    decreases s.len(),
{
    if s.len() == 0 {
        Option::None
    } else if !(s.last() >= '0' && s.last() <= '9') {
        Option::None
    } else if s.len() == 1 {
        Option::Some(s.last() as int - '0' as int)
    } else {
        match row_value(s.drop_last()) {
            Option::Some(v) => Option::Some(v * 10 + (s.last() as int - '0' as int)),
            Option::None => Option::None,
        }
    }
}

/// The word `pass` in any letter case.
pub open spec fn is_pass(s: Seq<char>) -> bool {
    s.len() == 4 && lower_char(s[0]) == 'p' && lower_char(s[1]) == 'a' && lower_char(s[2]) == 's'
        && lower_char(s[3]) == 's'
}

/// Whether a move coordinate is valid for the given board size: `pass`,
/// or a column letter (`I` skipped) within the board's width followed
/// by a row number from 1 to the board's height.
pub open spec fn spec_valid_move(s: Seq<char>, bx: int, by: int) -> bool {
    if s.len() < 2 {
        false
    } else if is_pass(s) {
        true
    } else {
        let col = column_number(s[0]);
        1 <= col && col <= bx && match row_value(s.drop_first()) {
            Option::Some(r) => 1 <= r && r <= by,
            Option::None => false,
        }
    }
}

/// The opposite color: `b` to `w`, anything else to `b`.
pub open spec fn flip_color(c: Seq<char>) -> Seq<char> {
    if c == "b"@ {
        "w"@
    } else {
        "b"@
    }
}

/// The color that plays move number `i` (counted from zero), starting
/// from `first` and alternating.
pub open spec fn nth_color(first: Seq<char>, i: int) -> Seq<char>
    decreases i,
{
    if i <= 0 {
        first
    } else {
        flip_color(nth_color(first, i - 1))
    }
}

/// Whether the request carries at least one initial stone.
pub open spec fn has_handicap(req: &AnalysisRequest) -> bool {
    match req.initial_stones {
        Option::Some(v) => v@.len() > 0,
        Option::None => false,
    }
}

/// The first player of a request: the caller-supplied one lowercased,
/// else `w` when initial stones are present (handicap), else `b`.
pub open spec fn spec_first_player(req: &AnalysisRequest) -> Seq<char> {
    match req.initial_player {
        Option::Some(p) => lower_seq(p@),
        Option::None => if has_handicap(req) {
            "w"@
        } else {
            "b"@
        },
    }
}

/// The komi of a request in half points, defaulted to 15 (7.5).
pub open spec fn spec_komi_half(req: &AnalysisRequest) -> int {
    match req.komi_half {
        Option::Some(k) => k as int,
        Option::None => 15,
    }
}

/// The rules defaulted from a komi in half points: a whole komi, or a
/// half komi whose whole part is even, means `japanese`; any other
/// komi means `chinese`.
pub open spec fn default_rules(komi_half: int) -> Seq<char> {
    if komi_half % 2 == 0 || komi_half % 4 == 1 {
        "japanese"@
    } else {
        "chinese"@
    }
}

/// The rules of a request: the caller's verbatim, else defaulted from
/// the komi.
pub open spec fn spec_rules(req: &AnalysisRequest) -> Seq<char> {
    match req.rules {
        Option::Some(r) => r@,
        Option::None => default_rules(spec_komi_half(req)),
    }
}

/// ASCII-lowercases a string.
pub fn to_lower(s: &str) -> (r: String)
    ensures
        r@ == lower_seq(s@),
{
    let n = s.unicode_len();
    let mut out: Vec<char> = Vec::new();
    let mut i: usize = 0;
    while i < n
        invariant
            n == s@.len(),
            i <= n,
            out@ =~= lower_seq(s@).subrange(0, i as int),
        decreases n - i,
    {
        out.push(lower_char_exec(s.get_char(i)));
        proof {
            assert(out@ =~= lower_seq(s@).subrange(0, i + 1 as int));
        }
        i = i + 1;
    }
    proof {
        assert(lower_seq(s@).subrange(0, n as int) =~= lower_seq(s@));
    }
    crate::text::string_from_chars(&out)
}

fn exec_column_number(c: char) -> (r: u8)
    ensures
        r as int == column_number(c),
{
    let u = upper_char_exec(c);
    if u >= 'A' && u <= 'H' {
        ((u as u32) - 64) as u8
    } else if u >= 'J' && u <= 'Z' {
        ((u as u32) - 65) as u8
    } else {
        0
    }
}

/// Row digits extend the row value decimally.
pub(crate) proof fn lemma_row_value_push(t: Seq<char>, c: char)
    requires
        c >= '0' && c <= '9',
    ensures
        t.len() == 0 ==> row_value(t.push(c)) == Option::Some(c as int - '0' as int),
        (t.len() > 0 && row_value(t) is Some) ==> row_value(t.push(c)) == Option::Some(
            row_value(t).unwrap() * 10 + (c as int - '0' as int),
        ),
        (t.len() > 0 && row_value(t) is None) ==> row_value(t.push(c)) is None,
{
    let q = t.push(c);
    assert(q.last() == c);
    assert(q.drop_last() =~= t);
}

/// Validates a move coordinate against the board size, exactly as
/// `spec_valid_move` defines it.
pub fn is_valid_move(move_str: &str, board_x_size: u8, board_y_size: u8) -> (r: bool)
    ensures
        r == spec_valid_move(move_str@, board_x_size as int, board_y_size as int),
{
    let n = move_str.unicode_len();
    if n < 2 {
        return false;
    }
    if n == 4 {
        let p0 = lower_char_exec(move_str.get_char(0));
        let p1 = lower_char_exec(move_str.get_char(1));
        let p2 = lower_char_exec(move_str.get_char(2));
        let p3 = lower_char_exec(move_str.get_char(3));
        if p0 == 'p' && p1 == 'a' && p2 == 's' && p3 == 's' {
            return true;
        }
    }
    let col = exec_column_number(move_str.get_char(0));
    if !(col >= 1 && col <= board_x_size) {
        return false;
    }
    // The row: all digits, its decimal value within the board height.
    // The accumulator sticks at 256 once the value can no longer fit a
    // board height, which never exceeds 255.
    let ghost tail = move_str@.drop_first();
    let mut acc: u32 = 0;
    let mut i: usize = 1;
    while i < n
        invariant
            n == move_str@.len(),
            1 <= i <= n,
            tail == move_str@.drop_first(),
            !is_pass(move_str@),
            i == 1 ==> acc == 0,
            i > 1 ==> (match row_value(tail.subrange(0, i - 1)) {
                Option::Some(v) => (v <= 255 && acc == v) || (v > 255 && acc == 256),
                Option::None => false,
            }),
        decreases n - i,
    {
        let c = move_str.get_char(i);
        if !(c >= '0' && c <= '9') {
            proof {
                assert(tail[i - 1 as int] == move_str@[i as int]);
                lemma_row_none(tail, i - 1 as int);
            }
            return false;
        }
        let d: u32 = (c as u32) - 48;
        let ghost pre = tail.subrange(0, i - 1 as int);
        proof {
            assert(tail.subrange(0, i as int) =~= pre.push(tail[i - 1 as int]));
            assert(tail[i - 1 as int] == move_str@[i as int]);
            lemma_row_value_push(pre, tail[i - 1 as int]);
        }
        if acc * 10 + d > 255 {
            acc = 256;
        } else {
            acc = acc * 10 + d;
        }
        i = i + 1;
    }
    proof {
        assert(tail.subrange(0, n - 1 as int) =~= tail);
    }
    acc >= 1 && acc <= board_y_size as u32
}

/// A row with a non-digit character has no value, whichever prefix the
/// scan had reached.
proof fn lemma_row_none(tail: Seq<char>, k: int)
    requires
        0 <= k < tail.len(),
        !(tail[k] >= '0' && tail[k] <= '9'),
    ensures
        row_value(tail) is None,
    decreases tail.len(),
{
    if tail.len() > 0 {
        if k == tail.len() - 1 {
        } else {
            lemma_row_none(tail.drop_last(), k);
        }
    }
}

/// The last valid column letter for a board of the given width.
pub open spec fn spec_column_letter(board_size: int) -> char {
    if board_size <= 8 {
        ('A' as u32 + board_size - 1) as char
    } else {
        ('A' as u32 + board_size) as char
    }
}

/// The last valid column letter for a board of the given width; `I` is
/// skipped, so a width of 9 ends at `J`.
pub fn column_letter_for_size(board_size: u8) -> (c: char)
    requires
        1 <= board_size <= 25,
    ensures
        c == spec_column_letter(board_size as int),
{
    if board_size <= 8 {
        ((65 + board_size - 1) as u8) as char
    } else {
        ((65 + board_size) as u8) as char
    }
}

/// The rules defaulted from a komi in half points.
pub fn rules_from_komi(komi_half: i32) -> (r: String)
    ensures
        r@ == default_rules(komi_half as int),
{
    let r2: i32 = komi_half % 2;
    let r4: i32 = komi_half % 4;
    let e4: i32 = if r4 < 0 {
        r4 + 4
    } else {
        r4
    };
    assert(e4 == komi_half as int % 4);
    assert((r2 == 0) == (komi_half as int % 2 == 0));
    if r2 == 0 || e4 == 1 {
        "japanese".to_owned()
    } else {
        "chinese".to_owned()
    }
}


fn clone_pairs(v: &Vec<(String, String)>) -> (r: Vec<(String, String)>)
    ensures
        r@ == v@,
{
    let n = v.len();
    let mut out: Vec<(String, String)> = Vec::new();
    let mut i: usize = 0;
    while i < n
        invariant
            n == v@.len(),
            i <= n,
            out@ =~= v@.subrange(0, i as int),
        decreases n - i,
    {
        out.push((v[i].0.clone(), v[i].1.clone()));
        proof {
            assert(out@ =~= v@.subrange(0, i + 1 as int));
        }
        i = i + 1;
    }
    proof {
        assert(v@.subrange(0, n as int) =~= v@);
    }
    out
}

/// Whether `q` is the normalization of `req` that the engine sends:
/// stones passed through, colors assigned alternately from the first
/// player, rules and visit limits defaulted, everything else verbatim.
pub open spec fn spec_query_normalized(req: &AnalysisRequest, q: &AnalysisQuery) -> bool {
    &&& q.initial_stones@ == (match req.initial_stones {
        Option::Some(v) => v@,
        Option::None => Seq::<(String, String)>::empty(),
    })
    &&& q.moves@.len() == req.moves@.len()
    &&& (forall|i: int|
        0 <= i < q.moves@.len() ==> (#[trigger] q.moves@[i]).1 == req.moves@[i] && q.moves@[i].0@
            == nth_color(spec_first_player(req), i))
    &&& q.rules@ == spec_rules(req)
    &&& q.komi_half as int == spec_komi_half(req)
    &&& q.board_x_size == req.board_x_size
    &&& q.board_y_size == req.board_y_size
    &&& q.max_visits as int == (match req.max_visits {
        Option::Some(v) => v as int,
        Option::None => 10,
    })
    &&& q.include_ownership == req.include_ownership
    &&& q.include_policy == req.include_policy
    &&& q.include_pv_visits == req.include_pv_visits
    &&& q.override_settings == req.override_settings
}

/// Normalizes a request into the engine's query shape under the given
/// correlation id.
pub fn build_query(req: &AnalysisRequest, id: String) -> (q: AnalysisQuery)
    ensures
        q.id == id,
        spec_query_normalized(req, &q),
{
    let initial_stones: Vec<(String, String)> = match &req.initial_stones {
        Option::Some(v) => clone_pairs(v),
        Option::None => Vec::new(),
    };
    let first: String = match &req.initial_player {
        Option::Some(p) => to_lower(p.as_str()),
        Option::None => {
            let handicap = match &req.initial_stones {
                Option::Some(v) => v.len() > 0,
                Option::None => false,
            };
            if handicap {
                "w".to_owned()
            } else {
                "b".to_owned()
            }
        },
    };
    let ghost fp = spec_first_player(req);
    proof {
        assert(first@ == fp);
    }
    let n = req.moves.len();
    let mut moves: Vec<(String, String)> = Vec::new();
    let mut color = first;
    let mut i: usize = 0;
    while i < n
        invariant
            n == req.moves@.len(),
            i <= n,
            color@ == nth_color(fp, i as int),
            moves@.len() == i,
            forall|j: int|
                0 <= j < i ==> (#[trigger] moves@[j]).1 == req.moves@[j] && moves@[j].0@
                    == nth_color(fp, j),
        decreases n - i,
    {
        moves.push((color.clone(), req.moves[i].clone()));
        let b = "b".to_owned();
        let w = "w".to_owned();
        color = if color == b {
            w
        } else {
            b
        };
        proof {
            assert(color@ == nth_color(fp, i + 1 as int));
        }
        i = i + 1;
    }
    let komi_half: i32 = match req.komi_half {
        Option::Some(k) => k,
        Option::None => 15,
    };
    let rules: String = match &req.rules {
        Option::Some(r) => r.clone(),
        Option::None => rules_from_komi(komi_half),
    };
    let max_visits: u32 = match req.max_visits {
        Option::Some(v) => v,
        Option::None => 10,
    };
    let override_settings: Option<String> = match &req.override_settings {
        Option::Some(o) => Option::Some(o.clone()),
        Option::None => Option::None,
    };
    AnalysisQuery {
        id,
        initial_stones,
        moves,
        rules,
        komi_half,
        board_x_size: req.board_x_size,
        board_y_size: req.board_y_size,
        max_visits,
        include_ownership: req.include_ownership,
        include_policy: req.include_policy,
        include_pv_visits: req.include_pv_visits,
        override_settings,
    }
}


/// The command-line arguments the engine child is spawned with in
/// analysis mode: the mode, the model artifacts and the tuning file.
pub open spec fn spec_analysis_args(c: &KatagoConfig) -> Seq<Seq<char>> {
    seq!["analysis"@, "-model"@, c.model_path@] + (match c.human_model_path {
        Option::Some(h) => seq!["-human-model"@, h@],
        Option::None => Seq::<Seq<char>>::empty(),
    }) + seq!["-config"@, c.config_path@]
}

/// Builds the analysis-mode argument list for the engine binary.
pub fn analysis_engine_args(config: &KatagoConfig) -> (r: Vec<String>)
    ensures
        strs_view(r@) == spec_analysis_args(config),
{
    let mut args: Vec<String> = Vec::new();
    args.push("analysis".to_owned());
    args.push("-model".to_owned());
    args.push(config.model_path.clone());
    match &config.human_model_path {
        Option::Some(h) => {
            args.push("-human-model".to_owned());
            args.push(h.clone());
        },
        Option::None => {},
    }
    args.push("-config".to_owned());
    args.push(config.config_path.clone());
    proof {
        assert(strs_view(args@) =~= spec_analysis_args(config));
    }
    args
}

/// The command-line arguments the engine child is spawned with in GTP
/// mode.
pub open spec fn spec_gtp_args(c: &KatagoConfig) -> Seq<Seq<char>> {
    seq!["gtp"@, "-model"@, c.model_path@, "-config"@, c.config_path@]
}

/// Builds the GTP-mode argument list for the engine binary.
pub fn gtp_engine_args(config: &KatagoConfig) -> (r: Vec<String>)
    ensures
        strs_view(r@) == spec_gtp_args(config),
{
    let mut args: Vec<String> = Vec::new();
    args.push("gtp".to_owned());
    args.push("-model".to_owned());
    args.push(config.model_path.clone());
    args.push("-config".to_owned());
    args.push(config.config_path.clone());
    proof {
        assert(strs_view(args@) =~= spec_gtp_args(config));
    }
    args
}

/// What the demultiplexer decides for one engine output line.
pub enum RouteOutcome<S> {
    /// A waiter was registered for the line's id: its slot, removed
    /// from the table; the host sends the raw line on it.
    Deliver(S),
    /// The line carries an id nobody waits for (a late, orphaned or
    /// reserved-id response): logged and dropped.
    UnknownId,
    /// The line is not a JSON object with a string id (engine chatter):
    /// logged and dropped.
    Unroutable,
}

/// What the supervisor does on one tick.
pub enum TickAction {
    /// The engine looks alive: write this keepalive ping payload.
    SendPing(String),
    /// The engine is dead and attempts remain: back off, then respawn.
    Restart,
    /// The engine is dead and the attempt cap is reached: only observe.
    Observe,
}

/// How one caller's wait on its delivery slot ended.
pub enum WaitOutcome {
    /// The raw line was delivered; the host reports whether it decoded
    /// as the result schema, and the decoder's detail when it did not.
    Delivered { line: String, schema_ok: bool, detail: String },
    /// The slot was closed without a value: the engine died.
    Closed,
    /// The deadline elapsed first.
    TimedOut,
}

/// The process-wide actor that owns one engine child: its liveness
/// flag, its pending-request table and its restart counter.  The host
/// drives it with events; every transition is specified here.
pub struct AnalysisEngine<S> {
    config: KatagoConfig,
    alive: bool,
    restart_count: u32,
    pending: PendingTable<S>,
}

impl<S> AnalysisEngine<S> {
    /// The liveness flag: when false, no waiter may receive a fresh
    /// response.
    pub closed spec fn spec_alive(&self) -> bool {
        self.alive
    }

    /// The restart counter of the current incarnation.
    pub closed spec fn spec_restart_count(&self) -> int {
        self.restart_count as int
    }

    /// The pending table's entries, as `(id, slot)` pairs.
    pub closed spec fn pending_view(&self) -> Seq<(Seq<char>, S)> {
        self.pending@
    }

    /// Whether a waiter is registered for `id`.
    pub open spec fn pending_contains(&self, id: Seq<char>) -> bool {
        crate::pending::seq_has_id(self.pending_view(), id)
    }

    /// The per-request deadline, in seconds.
    pub closed spec fn spec_timeout_secs(&self) -> u64 {
        self.config.move_timeout_secs
    }

    /// The engine model artifact path.
    pub closed spec fn spec_model_path(&self) -> Seq<char> {
        self.config.model_path@
    }

    /// The actor's invariant: each id registered at most once, and the
    /// two reserved supervisor ids never registered at all — so a ping
    /// or version response can never reach a caller's slot.
    pub closed spec fn wf(&self) -> bool {
        &&& self.pending.wf()
        &&& !self.pending_contains("keepalive"@)
        &&& !self.pending_contains("query_version"@)
    }

    /// The configuration never changes after construction.
    pub open spec fn same_config(pre: &Self, post: &Self) -> bool {
        pre.spec_timeout_secs() == post.spec_timeout_secs() && pre.spec_model_path()
            == post.spec_model_path()
    }

    /// A fresh actor: not yet alive, nothing pending, counter zero.
    pub fn new(config: KatagoConfig) -> (e: Self)
        ensures
            !e.spec_alive(),
            e.pending_view() == Seq::<(Seq<char>, S)>::empty(),
            e.spec_restart_count() == 0,
            e.wf(),
            e.spec_timeout_secs() == config.move_timeout_secs,
            e.spec_model_path() == config.model_path@,
    {
        AnalysisEngine {
            config,
            alive: false,
            restart_count: 0,
            pending: PendingTable::new(),
        }
    }

    /// Whether the engine child is currently usable.
    pub fn is_alive(&self) -> (r: bool)
        ensures
            r == self.spec_alive(),
    {
        self.alive
    }

    /// The configured path of the primary model artifact.
    pub fn model_path(&self) -> (r: &str)
        ensures
            r@ == self.spec_model_path(),
    {
        self.config.model_path.as_str()
    }

    /// How many waiters are currently registered.
    pub fn pending_len(&self) -> (r: usize)
        ensures
            r == self.pending_view().len(),
    {
        self.pending.len()
    }

    /// The restart counter of the current incarnation.
    pub fn restart_attempts(&self) -> (r: u32)
        ensures
            r as int == self.spec_restart_count(),
    {
        self.restart_count
    }

    /// The configured per-request deadline in seconds.
    pub fn timeout_secs(&self) -> (r: u64)
        ensures
            r == self.spec_timeout_secs(),
    {
        self.config.move_timeout_secs
    }

    /// A child was spawned and its streams installed: the engine is
    /// alive again.
    pub fn on_spawned(&mut self)
        ensures
            Self::same_config(old(self), final(self)),
            final(self).spec_alive(),
            final(self).pending_view() == old(self).pending_view(),
            final(self).spec_restart_count() == old(self).spec_restart_count(),
            old(self).wf() ==> final(self).wf(),
    {
        self.alive = true;
    }

    /// Starts one analysis: fails fast when the engine is dead, chooses
    /// the correlation id (the caller's, or a fresh generated one),
    /// normalizes the request, registers the waiter's slot and returns
    /// the query with its encoded payload for the host to write.
    /// Fails with the duplicate-id error when the caller's id is
    /// already registered or is one of the two reserved supervisor ids.
    pub fn begin_analysis(&mut self, req: &AnalysisRequest, slot: S) -> (r: Result<
        (AnalysisQuery, String),
        KatagoError,
    >)
        ensures
            Self::same_config(old(self), final(self)),
            final(self).spec_alive() == old(self).spec_alive(),
            final(self).spec_restart_count() == old(self).spec_restart_count(),
            old(self).wf() ==> final(self).wf(),
            !old(self).spec_alive() ==> (r matches Err(e) && e is ProcessDied && final(self).pending_view() == old(self).pending_view()),
            old(self).spec_alive() ==> match r {
                Result::Ok((q, payload)) => {
                    &&& (match req.request_id {
                        Option::Some(i) => q.id@ == i@,
                        Option::None => q.id@.len() == 36,
                    })
                    &&& q.id@ != "keepalive"@
                    &&& q.id@ != "query_version"@
                    &&& !crate::pending::seq_has_id(old(self).pending_view(), q.id@)
                    &&& final(self).pending_view() == old(self).pending_view().push(
                        (q.id@, slot),
                    )
                    &&& spec_query_normalized(req, &q)
                    &&& payload@ == query_json(&q)
                    &&& ((match req.override_settings {
                        Option::Some(o) => line_clean(o@),
                        Option::None => true,
                    }) ==> line_clean(payload@))
                },
                Result::Err(e) => {
                    &&& final(self).pending_view() == old(self).pending_view()
                    &&& e matches KatagoError::DuplicateId(d)
                    &&& (match req.request_id {
                        Option::Some(i) => d@ == i@ && (i@ == "keepalive"@ || i@
                            == "query_version"@ || crate::pending::seq_has_id(
                            old(self).pending_view(),
                            i@,
                        )),
                        Option::None => d@.len() == 36 && crate::pending::seq_has_id(
                            old(self).pending_view(),
                            d@,
                        ),
                    })
                },
            },
    {
        if !self.alive {
            return Result::Err(KatagoError::ProcessDied);
        }
        let id: String = match &req.request_id {
            Option::Some(i) => i.clone(),
            Option::None => fresh_id(),
        };
        let keepalive = "keepalive".to_owned();
        let query_version = "query_version".to_owned();
        proof {
            reveal_strlit("keepalive");
            reveal_strlit("query_version");
        }
        if id == keepalive || id == query_version {
            return Result::Err(KatagoError::DuplicateId(id));
        }
        let q = build_query(req, id);
        let payload = encode_query(&q);
        let ghost pre = self.pending@;
        match self.pending.register(q.id.clone(), slot) {
            Result::Ok(()) => {
                proof {
                    crate::pending::lemma_push_has_id(pre, (q.id@, slot), "keepalive"@);
                    crate::pending::lemma_push_has_id(pre, (q.id@, slot), "query_version"@);
                }
                Result::Ok((q, payload))
            },
            Result::Err(e) => Result::Err(e),
        }
    }

    /// Records the outcome of writing one registered query to the
    /// engine.  A failed write kills the liveness flag, removes the
    /// registration and fails with the dead-engine error, so the caller
    /// never waits on a slot nobody can fill.
    pub fn note_submit(&mut self, id: &String, write_ok: bool) -> (r: Result<(), KatagoError>)
        ensures
            Self::same_config(old(self), final(self)),
            final(self).spec_restart_count() == old(self).spec_restart_count(),
            old(self).wf() ==> final(self).wf(),
            write_ok ==> (r is Ok && final(self).spec_alive() == old(self).spec_alive() && final(self).pending_view() == old(self).pending_view()),
            !write_ok ==> {
                &&& r matches Err(e) && e is ProcessDied
                &&& !final(self).spec_alive()
                &&& (old(self).wf() ==> !final(self).pending_contains(id@))
                &&& (!crate::pending::seq_has_id(old(self).pending_view(), id@) ==> final(self).pending_view() == old(self).pending_view())
            },
    {
        if write_ok {
            Result::Ok(())
        } else {
            let _slot = self.pending.remove(id);
            self.alive = false;
            Result::Err(KatagoError::ProcessDied)
        }
    }

    /// Settles one caller's wait.  A delivered line that decodes as the
    /// result schema is the response; one with an `error` field is the
    /// engine's own error; any other delivered line is a protocol
    /// error.  A closed slot means the engine died.  A timeout removes
    /// the registration — the entry is gone when the call returns —
    /// and reports the configured deadline.
    pub fn settle_wait(&mut self, id: &String, outcome: WaitOutcome) -> (r: Result<
        String,
        KatagoError,
    >)
        ensures
            Self::same_config(old(self), final(self)),
            final(self).spec_alive() == old(self).spec_alive(),
            final(self).spec_restart_count() == old(self).spec_restart_count(),
            old(self).wf() ==> final(self).wf(),
            match outcome {
                WaitOutcome::Delivered { line, schema_ok, detail } => {
                    &&& final(self).pending_view() == old(self).pending_view()
                    &&& (schema_ok ==> (r matches Ok(l) && l == line))
                    &&& ((!schema_ok && json_error_field(line@) is Some) ==> (r matches Err(e) && (
                    e matches KatagoError::ResponseError(msg) && Option::Some(msg@)
                        == json_error_field(line@))))
                    &&& ((!schema_ok && json_error_field(line@) is None) ==> (r matches Err(e) && (
                    e matches KatagoError::ParseError(d) && d == detail)))
                },
                WaitOutcome::Closed => r matches Err(e) && e is ProcessDied && final(self).pending_view() == old(self).pending_view(),
                WaitOutcome::TimedOut => {
                    &&& r matches Err(e) && (e matches KatagoError::Timeout(secs) && secs == old(self).spec_timeout_secs())
                    &&& (old(self).wf() ==> !final(self).pending_contains(id@))
                    &&& (!crate::pending::seq_has_id(old(self).pending_view(), id@) ==> final(self).pending_view() == old(self).pending_view())
                },
            },
    {
        match outcome {
            WaitOutcome::Delivered { line, schema_ok, detail } => {
                if schema_ok {
                    Result::Ok(line)
                } else {
                    match line_error_field(line.as_str()) {
                        Option::Some(m) => Result::Err(KatagoError::ResponseError(m)),
                        Option::None => Result::Err(KatagoError::ParseError(detail)),
                    }
                }
            },
            WaitOutcome::Closed => Result::Err(KatagoError::ProcessDied),
            WaitOutcome::TimedOut => {
                let _slot = self.pending.remove(id);
                Result::Err(KatagoError::Timeout(self.config.move_timeout_secs))
            },
        }
    }

    /// Routes one engine output line: the line's own id picks the
    /// waiter, so a delivered line always reaches the slot that was
    /// registered under exactly that id.  Lines without a routable id,
    /// and lines whose id nobody waits for, change nothing.
    pub fn handle_output_line(&mut self, line: &String) -> (r: RouteOutcome<S>)
        ensures
            Self::same_config(old(self), final(self)),
            final(self).spec_alive() == old(self).spec_alive(),
            final(self).spec_restart_count() == old(self).spec_restart_count(),
            old(self).wf() ==> final(self).wf(),
            match json_line_id(line@) {
                Option::None => r is Unroutable && final(self).pending_view() == old(self).pending_view(),
                Option::Some(i) => {
                    &&& (crate::pending::seq_has_id(old(self).pending_view(), i) ==> (r matches
                        RouteOutcome::Deliver(s) && exists|k: int|
                        0 <= k < old(self).pending_view().len() && old(self).pending_view()[k] == (
                        i,
                        s,
                        ) && final(self).pending_view() == old(self).pending_view().remove(k)))
                    &&& (!crate::pending::seq_has_id(old(self).pending_view(), i) ==> (r is
                        UnknownId && final(self).pending_view() == old(self).pending_view()))
                },
            },
    {
        match line_id(line.as_str()) {
            Option::Some(id) => {
                match self.pending.remove(&id) {
                    Option::Some(s) => RouteOutcome::Deliver(s),
                    Option::None => RouteOutcome::UnknownId,
                }
            },
            Option::None => RouteOutcome::Unroutable,
        }
    }

    /// The output stream ended: the engine is dead.  Every pending slot
    /// is removed and handed back; the host drops them, so each waiter
    /// observes cancellation rather than a response from a later
    /// incarnation.
    pub fn on_output_eof(&mut self) -> (drained: Vec<S>)
        ensures
            Self::same_config(old(self), final(self)),
            !final(self).spec_alive(),
            final(self).spec_restart_count() == old(self).spec_restart_count(),
            final(self).pending_view() == Seq::<(Seq<char>, S)>::empty(),
            final(self).wf(),
            drained@.len() == old(self).pending_view().len(),
            forall|i: int|
                0 <= i < drained@.len() ==> drained@[i] == old(self).pending_view()[i].1,
    {
        self.alive = false;
        self.pending.drain_all()
    }

    /// One supervisor tick: ping a live engine, restart a dead one
    /// while attempts remain, otherwise only observe.
    pub fn supervisor_tick(&self) -> (r: TickAction)
        ensures
            self.spec_alive() ==> (r matches TickAction::SendPing(p) && p@ == action_json(
                "keepalive"@,
                "query_version"@,
            ) && line_clean(p@)),
            (!self.spec_alive() && self.spec_restart_count() < MAX_RESTART_ATTEMPTS as int)
                ==> r is Restart,
            (!self.spec_alive() && self.spec_restart_count() >= MAX_RESTART_ATTEMPTS as int)
                ==> r is Observe,
    {
        if self.alive {
            let keepalive = "keepalive".to_owned();
            TickAction::SendPing(encode_action(&keepalive, "query_version"))
        } else if self.restart_count < MAX_RESTART_ATTEMPTS {
            TickAction::Restart
        } else {
            TickAction::Observe
        }
    }

    /// Records the outcome of writing one keepalive ping.  A successful
    /// ping resets the restart counter to zero; a failed one kills the
    /// liveness flag and drains the table, handing every slot back for
    /// cancellation.
    pub fn on_ping_write(&mut self, ok: bool) -> (drained: Vec<S>)
        ensures
            Self::same_config(old(self), final(self)),
            ok ==> {
                &&& final(self).spec_alive() == old(self).spec_alive()
                &&& final(self).spec_restart_count() == 0
                &&& final(self).pending_view() == old(self).pending_view()
                &&& drained@.len() == 0
                &&& (old(self).wf() ==> final(self).wf())
            },
            !ok ==> {
                &&& !final(self).spec_alive()
                &&& final(self).spec_restart_count() == old(self).spec_restart_count()
                &&& final(self).pending_view() == Seq::<(Seq<char>, S)>::empty()
                &&& final(self).wf()
                &&& drained@.len() == old(self).pending_view().len()
                &&& forall|i: int|
                    0 <= i < drained@.len() ==> drained@[i] == old(self).pending_view()[i].1
            },
    {
        if ok {
            self.restart_count = 0;
            Vec::new()
        } else {
            self.alive = false;
            self.pending.drain_all()
        }
    }

    /// Records one restart attempt of a dead engine: the counter rises
    /// by exactly one, and the engine is alive again only when the
    /// spawn succeeded.
    pub fn on_restart(&mut self, spawn_ok: bool)
        requires
            !old(self).spec_alive(),
            old(self).spec_restart_count() < MAX_RESTART_ATTEMPTS as int,
        ensures
            Self::same_config(old(self), final(self)),
            final(self).spec_alive() == spawn_ok,
            final(self).spec_restart_count() == old(self).spec_restart_count() + 1,
            final(self).pending_view() == old(self).pending_view(),
            old(self).wf() ==> final(self).wf(),
    {
        self.restart_count = self.restart_count + 1;
        if spawn_ok {
            self.alive = true;
        }
    }

    /// The cache-clear action under a fresh generated id: the id and
    /// the payload the host writes.
    pub fn clear_cache_request(&self) -> (r: (String, String))
        ensures
            r.0@.len() == 36,
            r.1@ == action_json(r.0@, "clear_cache"@),
            line_clean(r.1@),
    {
        let id = fresh_id();
        let payload = encode_action(&id, "clear_cache");
        (id, payload)
    }

    /// The version-query action under its reserved id.  Its response
    /// cannot be routed back (the id is never registered), so the host
    /// only writes it and then consults `settle_version`.
    pub fn version_request() -> (r: String)
        ensures
            r@ == action_json("query_version"@, "query_version"@),
            line_clean(r@),
    {
        let query_version = "query_version".to_owned();
        encode_action(&query_version, "query_version")
    }

    /// The version result after the write settled: the engine version
    /// known from startup while the engine lives, the dead-engine error
    /// otherwise.
    pub fn settle_version(&self) -> (r: Result<(String, Option<String>), KatagoError>)
        ensures
            self.spec_alive() ==> (r matches Ok(v) && v.0@ == "1.15.0"@ && v.1 is None),
            !self.spec_alive() ==> (r matches Err(e) && e is ProcessDied),
    {
        if self.alive {
            Result::Ok(("1.15.0".to_owned(), Option::None))
        } else {
            Result::Err(KatagoError::ProcessDied)
        }
    }
}


impl<S> AnalysisEngine<S> {
    /// Law: for every correlation id and every instant, the pending
    /// table holds at most one entry for it — two positions carrying
    /// the same id are the same position.
    pub proof fn lemma_at_most_one_waiter(&self, i: int, j: int)
        requires
            self.wf(),
            0 <= i < self.pending_view().len(),
            0 <= j < self.pending_view().len(),
            self.pending_view()[i].0 == self.pending_view()[j].0,
        ensures
            i == j,
    {
        self.pending.lemma_at_most_one_entry(i, j);
    }

    /// Law: supervisor pings are transparent to callers.  The two
    /// reserved supervisor ids are never registered, so an engine line
    /// answering a ping or a version query matches no waiter and is
    /// dropped as unknown.
    pub proof fn lemma_ping_invisible(&self)
        requires
            self.wf(),
        ensures
            !self.pending_contains("keepalive"@),
            !self.pending_contains("query_version"@),
    {
    }

    /// Law: a restart starts from a clean slate.  Once the death of an
    /// incarnation has drained the table, no correlation id remains
    /// registered: no response of the prior incarnation can reach any
    /// waiter, and a fresh request proceeds with nothing left over.
    pub proof fn lemma_restart_leaves_no_waiters(&self)
        requires
            self.pending_view().len() == 0,
        ensures
            forall|id: Seq<char>| !self.pending_contains(id),
    {
    }
}

/// Law: a successful completion answers the id that was submitted.
/// A delivery pairs a line with a slot only when some entry of the
/// table registered that slot under exactly the id the line carries:
/// no waiter can receive a response for someone else's id.
pub proof fn lemma_delivery_matches_registration<S>(
    t: Seq<(Seq<char>, S)>,
    lines: Seq<Seq<char>>,
    p: (Seq<char>, S),
)
    requires
        table_wf(t),
        distinct_line_ids(lines),
        demux_deliveries(t, lines).contains(p),
    ensures
        exists|k: int|
            0 <= k < t.len() && #[trigger] t[k].1 == p.1 && json_line_id(p.0) == Option::Some(
                t[k].0,
            ),
{
    lemma_demux_order_independent(t, lines);
    assert(matched_deliveries(t, lines).contains(p));
    let (j, k) = choose|j: int, k: int|
        0 <= j < lines.len() && 0 <= k < t.len() && lines[j] == p.0 && t[k].1 == p.1
            && json_line_id(p.0) == Option::Some(t[k].0);
    assert(0 <= k < t.len() && t[k].1 == p.1 && json_line_id(p.0) == Option::Some(t[k].0));
}

/// The set of `(line, slot)` deliveries a demultiplexer run makes:
/// lines are routed one by one, each either removing and serving the
/// entry registered under the line's id, or changing nothing.
pub open spec fn demux_deliveries<S>(t: Seq<(Seq<char>, S)>, lines: Seq<Seq<char>>) -> Set<
    (Seq<char>, S),
>
    decreases lines.len(),
{
    if lines.len() == 0 {
        Set::empty()
    } else {
        let l = lines[0];
        let rest = lines.drop_first();
        match json_line_id(l) {
            Option::Some(i) => if crate::pending::seq_has_id(t, i) {
                let k = choose|k: int| 0 <= k < t.len() && t[k].0 == i;
                demux_deliveries(t.remove(k), rest).insert((l, t[k].1))
            } else {
                demux_deliveries(t, rest)
            },
            Option::None => demux_deliveries(t, rest),
        }
    }
}

/// The deliveries determined by the table and the lines alone, with no
/// reference to the order of the lines: every pairing of a line with
/// the slot registered under that line's id.
pub open spec fn matched_deliveries<S>(t: Seq<(Seq<char>, S)>, lines: Seq<Seq<char>>) -> Set<
    (Seq<char>, S),
> {
    Set::new(
        |p: (Seq<char>, S)|
            exists|j: int, k: int|
                0 <= j < lines.len() && 0 <= k < t.len() && lines[j] == p.0 && t[k].1 == p.1
                    && json_line_id(p.0) == Option::Some(t[k].0),
    )
}

/// Whether the routable ids of the lines are pairwise distinct: no two
/// lines answer the same correlation id.
pub open spec fn distinct_line_ids(lines: Seq<Seq<char>>) -> bool {
    forall|a: int, b: int|
        0 <= a < lines.len() && 0 <= b < lines.len() && a != b && (#[trigger] json_line_id(
            lines[a],
        )) is Some && (#[trigger] json_line_id(lines[b])) is Some ==> json_line_id(lines[a])
            != json_line_id(lines[b])
}

/// Table well-formedness at the sequence level.
pub open spec fn table_wf<S>(t: Seq<(Seq<char>, S)>) -> bool {
    forall|i: int, j: int|
        0 <= i < t.len() && 0 <= j < t.len() && #[trigger] t[i].0 == #[trigger] t[j].0 ==> i == j
}

/// Law: ordering independence.  For a well-formed table and lines that
/// answer pairwise-distinct ids, a demultiplexer run delivers exactly
/// the pairings of each line with the slot registered under its id —
/// a set that depends only on the table and on *which* lines arrive,
/// not on the order in which they arrive.  Concurrent callers thus
/// receive exactly the response bodies the engine emitted for their
/// ids, whatever the completion order.
pub proof fn lemma_demux_order_independent<S>(t: Seq<(Seq<char>, S)>, lines: Seq<Seq<char>>)
    requires
        table_wf(t),
        distinct_line_ids(lines),
    ensures
        demux_deliveries(t, lines) == matched_deliveries(t, lines),
    decreases lines.len(),
{
    if lines.len() == 0 {
        assert(demux_deliveries(t, lines) =~= matched_deliveries(t, lines));
    } else {
        let l = lines[0];
        let rest = lines.drop_first();
        assert(forall|j: int| 0 <= j < rest.len() ==> rest[j] == lines[j + 1]);
        assert(distinct_line_ids(rest)) by {
            assert forall|a: int, b: int|
                0 <= a < rest.len() && 0 <= b < rest.len() && a != b && (#[trigger] json_line_id(
                    rest[a],
                )) is Some && (#[trigger] json_line_id(rest[b])) is Some implies json_line_id(
                rest[a],
            ) != json_line_id(rest[b]) by {
                assert(rest[a] == lines[a + 1]);
                assert(rest[b] == lines[b + 1]);
            }
        }
        match json_line_id(l) {
            Option::Some(i) => {
                if crate::pending::seq_has_id(t, i) {
                    let k = choose|k: int| 0 <= k < t.len() && t[k].0 == i;
                    let t2 = t.remove(k);
                    assert(table_wf(t2)) by {
                        assert forall|x: int, y: int|
                            0 <= x < t2.len() && 0 <= y < t2.len() && #[trigger] t2[x].0
                                == #[trigger] t2[y].0 implies x == y by {
                            let x0 = if x < k { x } else { x + 1 };
                            let y0 = if y < k { y } else { y + 1 };
                            assert(t[x0].0 == t2[x].0);
                            assert(t[y0].0 == t2[y].0);
                        }
                    }
                    lemma_demux_order_independent(t2, rest);
                    assert(demux_deliveries(t, lines) == matched_deliveries(t2, rest).insert(
                        (l, t[k].1),
                    ));
                    assert(matched_deliveries(t, lines) =~= matched_deliveries(t2, rest).insert(
                        (l, t[k].1),
                    )) by {
                        assert forall|p: (Seq<char>, S)|
                            matched_deliveries(t, lines).contains(p) implies matched_deliveries(
                            t2,
                            rest,
                        ).insert((l, t[k].1)).contains(p) by {
                            let (j, m) = choose|j: int, m: int|
                                0 <= j < lines.len() && 0 <= m < t.len() && lines[j] == p.0
                                    && t[m].1 == p.1 && json_line_id(p.0) == Option::Some(t[m].0);
                            if j == 0 {
                                // the first line matches only the chosen entry
                                assert(t[m].0 == i);
                                assert(m == k);
                                assert(p == (l, t[k].1));
                            } else {
                                // a later line answers a different id, whose
                                // entry survives the removal
                                assert(rest[j - 1] == p.0);
                                assert(json_line_id(lines[j]) != json_line_id(lines[0]));
                                assert(t[m].0 != i);
                                assert(m != k);
                                let m2 = if m < k { m } else { m - 1 };
                                assert(t2[m2] == t[m]);
                                assert(matched_deliveries(t2, rest).contains(p));
                            }
                        }
                        assert forall|p: (Seq<char>, S)|
                            matched_deliveries(t2, rest).insert((l, t[k].1)).contains(
                                p,
                            ) implies matched_deliveries(t, lines).contains(p) by {
                            if p == (l, t[k].1) {
                                assert(0 <= 0 < lines.len() && 0 <= k < t.len() && lines[0] == p.0
                                    && t[k].1 == p.1 && json_line_id(p.0) == Option::Some(t[k].0));
                            } else {
                                assert(matched_deliveries(t2, rest).contains(p));
                                let (j, m) = choose|j: int, m: int|
                                    0 <= j < rest.len() && 0 <= m < t2.len() && rest[j] == p.0
                                        && t2[m].1 == p.1 && json_line_id(p.0) == Option::Some(
                                        t2[m].0,
                                    );
                                let m0 = if m < k { m } else { m + 1 };
                                assert(t[m0] == t2[m]);
                                assert(lines[j + 1] == p.0);
                                assert(0 <= j + 1 < lines.len() && 0 <= m0 < t.len() && lines[j
                                    + 1] == p.0 && t[m0].1 == p.1 && json_line_id(p.0)
                                    == Option::Some(t[m0].0));
                            }
                        }
                    }
                } else {
                    lemma_demux_order_independent(t, rest);
                    assert(matched_deliveries(t, lines) =~= matched_deliveries(t, rest)) by {
                        assert forall|p: (Seq<char>, S)|
                            matched_deliveries(t, lines).contains(p) implies matched_deliveries(
                            t,
                            rest,
                        ).contains(p) by {
                            let (j, m) = choose|j: int, m: int|
                                0 <= j < lines.len() && 0 <= m < t.len() && lines[j] == p.0
                                    && t[m].1 == p.1 && json_line_id(p.0) == Option::Some(t[m].0);
                            if j == 0 {
                                assert(crate::pending::seq_has_id(t, i));
                            } else {
                                assert(rest[j - 1] == p.0);
                            }
                        }
                        assert forall|p: (Seq<char>, S)|
                            matched_deliveries(t, rest).contains(p) implies matched_deliveries(
                            t,
                            lines,
                        ).contains(p) by {
                            let (j, m) = choose|j: int, m: int|
                                0 <= j < rest.len() && 0 <= m < t.len() && rest[j] == p.0
                                    && t[m].1 == p.1 && json_line_id(p.0) == Option::Some(t[m].0);
                            assert(lines[j + 1] == p.0);
                        }
                    }
                }
            },
            Option::None => {
                lemma_demux_order_independent(t, rest);
                assert(matched_deliveries(t, lines) =~= matched_deliveries(t, rest)) by {
                    assert forall|p: (Seq<char>, S)|
                        matched_deliveries(t, lines).contains(p) implies matched_deliveries(
                        t,
                        rest,
                    ).contains(p) by {
                        let (j, m) = choose|j: int, m: int|
                            0 <= j < lines.len() && 0 <= m < t.len() && lines[j] == p.0 && t[m].1
                                == p.1 && json_line_id(p.0) == Option::Some(t[m].0);
                        if j == 0 {
                            assert(json_line_id(p.0) is Some);
                            assert(false);
                        } else {
                            assert(rest[j - 1] == p.0);
                        }
                    }
                    assert forall|p: (Seq<char>, S)|
                        matched_deliveries(t, rest).contains(p) implies matched_deliveries(
                        t,
                        lines,
                    ).contains(p) by {
                        let (j, m) = choose|j: int, m: int|
                            0 <= j < rest.len() && 0 <= m < t.len() && rest[j] == p.0 && t[m].1
                                == p.1 && json_line_id(p.0) == Option::Some(t[m].0);
                        assert(lines[j + 1] == p.0);
                    }
                }
            },
        }
    }
}

} // verus!
