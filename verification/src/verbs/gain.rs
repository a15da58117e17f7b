//! `stk gain`: the token-savings summary's options, entry selection, totals, grouping and
//! calendar keys. Only entries with recorded token counts count toward it -- plain
//! usage-tracking entries (e.g. from `stk proxy`) have nothing to summarize.
use vstd::prelude::*;

use crate::budget::selector::views;
use crate::history::{EntryView, HistoryStore, UsageEntry};
use crate::io::{line_bytes, sent, write_line, OutputSink};
use crate::text::{lemma_lex_irreflexive, lemma_lex_total, lemma_lex_transitive, lex_less, lex_lt, chars_of, contains, decimal, eq_str, extend_chars, push_str, string_of};

verus! {

/// What `gain`'s flags ask for.
pub struct Options {
    pub project_scope: bool,
    pub show_history: bool,
    pub show_graph: bool,
    pub show_quota: bool,
    pub tier: String,
    pub daily: bool,
    pub weekly: bool,
    pub monthly: bool,
    pub format: String,
    pub failures: bool,
    pub reset: bool,
}

impl Default for Options {
    fn default() -> (r: Options)
        ensures
            !r.project_scope && !r.show_history && !r.show_graph && !r.show_quota,
            !r.daily && !r.weekly && !r.monthly && !r.failures && !r.reset,
            r.tier@ == "20x"@,
            r.format@ == "text"@,
    {
        Options {
            project_scope: false,
            show_history: false,
            show_graph: false,
            show_quota: false,
            tier: "20x".to_string(),
            daily: false,
            weekly: false,
            monthly: false,
            format: "text".to_string(),
            failures: false,
            reset: false,
        }
    }
}

/// The content of an `Options`, as plain values.
pub struct OptionsView {
    pub project_scope: bool,
    pub show_history: bool,
    pub show_graph: bool,
    pub show_quota: bool,
    pub tier: Seq<char>,
    pub daily: bool,
    pub weekly: bool,
    pub monthly: bool,
    pub format: Seq<char>,
    pub failures: bool,
    pub reset: bool,
}

impl View for Options {
    type V = OptionsView;

    open spec fn view(&self) -> OptionsView {
        OptionsView {
            project_scope: self.project_scope,
            show_history: self.show_history,
            show_graph: self.show_graph,
            show_quota: self.show_quota,
            tier: self.tier@,
            daily: self.daily,
            weekly: self.weekly,
            monthly: self.monthly,
            format: self.format@,
            failures: self.failures,
            reset: self.reset,
        }
    }
}

pub open spec fn default_options() -> OptionsView {
    OptionsView {
        project_scope: false,
        show_history: false,
        show_graph: false,
        show_quota: false,
        tier: "20x"@,
        daily: false,
        weekly: false,
        monthly: false,
        format: "text"@,
        failures: false,
        reset: false,
    }
}

/// Which flag `a` is: 1 to 10 for the switches (`-p`, `-H`, `-g`, `-q`, `-d`, `-w`, `-m`,
/// `-a`, `-F`, `--reset`, each also in its long form), 11 for `-t`/`--tier`, 12 for
/// `-f`/`--format`, 0 for anything else.
#[verifier::opaque]
pub open spec fn flag_code(a: Seq<char>) -> int {
    if is_flag(a, "-p"@, "--project"@) {
        1
    } else if is_flag(a, "-H"@, "--history"@) {
        2
    } else if is_flag(a, "-g"@, "--graph"@) {
        3
    } else if is_flag(a, "-q"@, "--quota"@) {
        4
    } else if is_flag(a, "-d"@, "--daily"@) {
        5
    } else if is_flag(a, "-w"@, "--weekly"@) {
        6
    } else if is_flag(a, "-m"@, "--monthly"@) {
        7
    } else if is_flag(a, "-a"@, "--all"@) {
        8
    } else if is_flag(a, "-F"@, "--failures"@) {
        9
    } else if a == "--reset"@ {
        10
    } else if is_flag(a, "-t"@, "--tier"@) {
        11
    } else if is_flag(a, "-f"@, "--format"@) {
        12
    } else {
        0
    }
}

pub open spec fn is_flag(a: Seq<char>, short: Seq<char>, long: Seq<char>) -> bool {
    a == short || a == long
}

/// The option switch `code` turns on, applied to `o`.
pub open spec fn switch_on(code: int, o: OptionsView) -> OptionsView {
    if code == 1 {
        OptionsView { project_scope: true, ..o }
    } else if code == 2 {
        OptionsView { show_history: true, ..o }
    } else if code == 3 {
        OptionsView { show_graph: true, ..o }
    } else if code == 4 {
        OptionsView { show_quota: true, ..o }
    } else if code == 5 {
        OptionsView { daily: true, ..o }
    } else if code == 6 {
        OptionsView { weekly: true, ..o }
    } else if code == 7 {
        OptionsView { monthly: true, ..o }
    } else if code == 8 {
        OptionsView { daily: true, weekly: true, monthly: true, ..o }
    } else if code == 9 {
        OptionsView { failures: true, ..o }
    } else {
        OptionsView { reset: true, ..o }
    }
}

/// The usage error `gain`'s arguments hold, if any: an unknown argument, or `-t`/`-f`
/// without its value; arguments are read from the front and the first problem wins.
pub open spec fn options_error(args: Seq<Seq<char>>) -> Option<Seq<char>>
    decreases args.len(),
{
    if args.len() == 0 {
        None
    } else if flag_code(args[0]) == 0 {
        Some("unrecognized argument '"@ + args[0] + "'"@)
    } else if flag_code(args[0]) <= 10 {
        options_error(args.drop_first())
    } else if args.len() < 2 {
        if flag_code(args[0]) == 11 {
            Some("-t/--tier requires a value"@)
        } else {
            Some("-f/--format requires a value"@)
        }
    } else {
        options_error(args.skip(2))
    }
}

/// The options `args` turn on, read from the front starting from `o`: each switch sets
/// its option, `-a`/`--all` all three breakdowns, and `-t`/`-f` take the next argument
/// as their value (the last one given wins). Meaningful when `options_error` finds nothing.
pub open spec fn apply_options(args: Seq<Seq<char>>, o: OptionsView) -> OptionsView
    decreases args.len(),
{
    if args.len() == 0 {
        o
    } else if flag_code(args[0]) == 11 && args.len() >= 2 {
        apply_options(args.skip(2), OptionsView { tier: args[1], ..o })
    } else if flag_code(args[0]) == 12 && args.len() >= 2 {
        apply_options(args.skip(2), OptionsView { format: args[1], ..o })
    } else if 1 <= flag_code(args[0]) <= 10 {
        apply_options(args.drop_first(), switch_on(flag_code(args[0]), o))
    } else {
        o
    }
}

fn flag_code_of(a: &[char]) -> (c: u8)
    ensures
        c == flag_code(a@),
        c <= 12,
{
    reveal(flag_code);
    if eq_str(a, "-p") || eq_str(a, "--project") {
        1
    } else if eq_str(a, "-H") || eq_str(a, "--history") {
        2
    } else if eq_str(a, "-g") || eq_str(a, "--graph") {
        3
    } else if eq_str(a, "-q") || eq_str(a, "--quota") {
        4
    } else if eq_str(a, "-d") || eq_str(a, "--daily") {
        5
    } else if eq_str(a, "-w") || eq_str(a, "--weekly") {
        6
    } else if eq_str(a, "-m") || eq_str(a, "--monthly") {
        7
    } else if eq_str(a, "-a") || eq_str(a, "--all") {
        8
    } else if eq_str(a, "-F") || eq_str(a, "--failures") {
        9
    } else if eq_str(a, "--reset") {
        10
    } else if eq_str(a, "-t") || eq_str(a, "--tier") {
        11
    } else if eq_str(a, "-f") || eq_str(a, "--format") {
        12
    } else {
        0
    }
}

/// Reads `gain`'s arguments (see [`options_error`] and [`apply_options`]).
#[verifier::rlimit(40)]
pub fn parse_options(args: &[String]) -> (r: Result<Options, String>)
    ensures
        match r {
            Ok(o) => options_error(views(args@)) is None && o@ == apply_options(views(args@), default_options()),
            Err(e) => options_error(views(args@)) == Some(e@),
        },
{
    let ghost a = views(args@);
    let mut options = Options::default();
    assert(options@ == default_options());
    let mut i: usize = 0;
    assert(a.skip(0) == a);
    while i < args.len()
        invariant
            i <= args.len(),
            a == views(args@),
            options_error(a) == options_error(a.skip(i as int)),
            apply_options(a, default_options()) == apply_options(a.skip(i as int), options@),
        decreases args.len() - i,
    {
        let ghost rest = a.skip(i as int);
        assert(rest[0] == args@[i as int]@);
        assert(rest.drop_first() == a.skip(i + 1));
        let arg = chars_of(args[i].as_str());
        let code = flag_code_of(&arg);
        if code == 0 {
            let mut msg = chars_of("unrecognized argument '");
            extend_chars(&mut msg, &arg);
            push_str(&mut msg, "'");
            return Err(string_of(&msg));
        } else if code <= 10 {
            let ghost before = options@;
            if code == 1 {
                options.project_scope = true;
            } else if code == 2 {
                options.show_history = true;
            } else if code == 3 {
                options.show_graph = true;
            } else if code == 4 {
                options.show_quota = true;
            } else if code == 5 {
                options.daily = true;
            } else if code == 6 {
                options.weekly = true;
            } else if code == 7 {
                options.monthly = true;
            } else if code == 8 {
                options.daily = true;
                options.weekly = true;
                options.monthly = true;
            } else if code == 9 {
                options.failures = true;
            } else {
                options.reset = true;
            }
            assert(options@ == switch_on(code as int, before));
            assert(apply_options(rest, before) == apply_options(rest.drop_first(), switch_on(code as int, before)));
            i += 1;
            assert(apply_options(a, default_options()) == apply_options(a.skip(i as int), options@));
        } else {
            if i + 1 >= args.len() {
                if code == 11 {
                    return Err("-t/--tier requires a value".to_string());
                } else {
                    return Err("-f/--format requires a value".to_string());
                }
            }
            assert(rest.skip(2) == a.skip(i + 2));
            assert(rest[1] == args@[i + 1]@);
            let ghost before = options@;
            if code == 11 {
                options.tier = args[i + 1].clone();
                assert(options@ == OptionsView { tier: rest[1], ..before });
            } else {
                options.format = args[i + 1].clone();
                assert(options@ == OptionsView { format: rest[1], ..before });
            }
            assert(apply_options(rest, before) == apply_options(rest.skip(2), options@));
            i += 2;
        }
    }
    assert(a.skip(i as int) == Seq::<Seq<char>>::empty());
    Ok(options)
}


/// Whole days since the Unix epoch at `ts` milliseconds.
pub open spec fn days_since_epoch_spec(ts: u128) -> int {
    (ts / 86_400_000) as int
}

/// The proleptic Gregorian date `(year, month, day)` of day `z` counted from 1970-01-01
/// (UTC), by Howard Hinnant's `civil_from_days`: days are counted in 400-year eras from
/// 0000-03-01, and within an era by year of era, day of year and month from March.
pub open spec fn civil_spec(z: int) -> (int, int, int) {
    let zz = z + 719468;
    let era = zz / 146097;
    let doe = zz - era * 146097;
    let yoe = (doe - doe / 1460 + doe / 36524 - doe / 146096) / 365;
    let y = yoe + era * 400;
    let doy = doe - (365 * yoe + yoe / 4 - yoe / 100);
    let mp = (5 * doy + 2) / 153;
    let d = doy - (153 * mp + 2) / 5 + 1;
    let m = if mp < 10 { mp + 3 } else { mp - 9 };
    (if m <= 2 { y + 1 } else { y }, m, d)
}

/// Converts a day count since the Unix epoch (UTC) into a `(year, month, day)` civil
/// date, without needing a date/time dependency.
#[verifier::rlimit(40)]
pub fn civil_from_days(z: i64) -> (r: (i64, u32, u32))
    requires
        z <= i64::MAX - 719468,
    ensures
        r.0 == civil_spec(z as int).0,
        r.1 == civil_spec(z as int).1,
        r.2 == civil_spec(z as int).2,
        1 <= r.1 <= 12,
        1 <= r.2 <= 31,
{
    let zz = z + 719468;
    let era = if zz >= 0 { zz / 146097 } else { 0 - ((0 - zz + 146096) / 146097) };
    proof {
        if zz >= 0 {
            assert(era == (zz as int) / 146097);
        } else {
            let q = (0 - zz + 146096) / 146097;
            assert(era == -q);
            assert(q * 146097 <= -zz + 146096 < q * 146097 + 146097) by (nonlinear_arith)
                requires
                    q == (0 - zz + 146096) / 146097,
                    0 - zz + 146096 >= 0,
            {
            }
            assert((zz as int) / 146097 == -q) by (nonlinear_arith)
                requires
                    q * 146097 <= -zz + 146096 < q * 146097 + 146097,
                    zz < 0,
            {
            }
        }
    }
    let doe = zz - era * 146097;
    assert(0 <= doe < 146097) by (nonlinear_arith)
        requires
            era == (zz as int) / 146097,
            doe == zz - era * 146097,
    {
    }
    let yoe = (doe - doe / 1460 + doe / 36524 - doe / 146096) / 365;
    assert(0 <= yoe <= 399);
    let y = yoe + era * 400;
    let doy = doe - (365 * yoe + yoe / 4 - yoe / 100);
    assert(0 <= doy <= 365);
    let mp = (5 * doy + 2) / 153;
    assert(0 <= mp <= 11);
    let d = doy - (153 * mp + 2) / 5 + 1;
    assert(1 <= d <= 31);
    let m = if mp < 10 { mp + 3 } else { mp - 9 };
    let year = if m <= 2 { y + 1 } else { y };
    (year, m as u32, d as u32)
}


/// `s` left-padded with zeros to at least `width` characters (`{:0width$}` of a
/// non-negative number).
pub open spec fn zero_pad(s: Seq<char>, width: nat) -> Seq<char> {
    if s.len() < width {
        Seq::new((width - s.len()) as nat, |i: int| '0') + s
    } else {
        s
    }
}

/// A non-negative number in decimal, zero-padded to `width`.
fn padded(n: u64, width: usize) -> (r: Vec<char>)
    ensures
        r@ == zero_pad(decimal(n as nat), width as nat),
{
    let digits = crate::text::decimal_chars_u128(n as u128);
    let mut out: Vec<char> = Vec::new();
    if digits.len() < width {
        let pad = width - digits.len();
        let mut i: usize = 0;
        while i < pad
            invariant
                i <= pad,
                out@ == Seq::new(i as nat, |k: int| '0'),
            decreases pad - i,
        {
            out.push('0');
            i += 1;
            assert(out@ =~= Seq::new(i as nat, |k: int| '0'));
        }
    }
    extend_chars(&mut out, &digits);
    out
}

pub open spec fn days_fit(ts: u128) -> bool {
    ts / 86_400_000 + 719474 <= i64::MAX
}

fn days_since_epoch(ts: u128) -> (r: i64)
    requires
        days_fit(ts),
    ensures
        r == days_since_epoch_spec(ts),
{
    (ts / 86_400_000) as i64
}

/// The day bucket of `ts`: its UTC date as `YYYY-MM-DD`.
pub open spec fn daily_key_spec(ts: u128) -> Seq<char> {
    let (y, m, d) = civil_spec(days_since_epoch_spec(ts));
    zero_pad(decimal(y as nat), 4) + "-"@ + zero_pad(decimal(m as nat), 2) + "-"@ + zero_pad(decimal(d as nat), 2)
}

/// The month bucket of `ts`: `YYYY-MM`.
pub open spec fn monthly_key_spec(ts: u128) -> Seq<char> {
    let (y, m, d) = civil_spec(days_since_epoch_spec(ts));
    zero_pad(decimal(y as nat), 4) + "-"@ + zero_pad(decimal(m as nat), 2)
}

/// The week bucket of `ts`: the Monday-to-Sunday week holding it, as `MM-DD to MM-DD`
/// (1970-01-01, day 0, was a Thursday).
pub open spec fn weekly_key_spec(ts: u128) -> Seq<char> {
    let z = days_since_epoch_spec(ts);
    let week_start = z - (z + 3) % 7;
    let (_, sm, sd) = civil_spec(week_start);
    let (_, em, ed) = civil_spec(week_start + 6);
    zero_pad(decimal(sm as nat), 2) + "-"@ + zero_pad(decimal(sd as nat), 2) + " to "@ + zero_pad(decimal(em as nat), 2) + "-"@
        + zero_pad(decimal(ed as nat), 2)
}

proof fn lemma_year_from_epoch(z: int)
    requires
        z >= 0,
    ensures
        civil_spec(z).0 >= 1970,
{
    let zz = z + 719468;
    let era = zz / 146097;
    let doe = zz - era * 146097;
    assert(era >= 4);
    assert(0 <= doe < 146097);
    let yoe = (doe - doe / 1460 + doe / 36524 - doe / 146096) / 365;
    assert(0 <= yoe <= 399);
    assert(era >= 5 || doe >= 135080);
    assert(yoe + era * 400 >= 1969);
}

pub fn daily_key(ts: u128) -> (r: String)
    requires
        days_fit(ts),
    ensures
        r@ == daily_key_spec(ts),
{
    let z = days_since_epoch(ts);
    let (y, m, d) = civil_from_days(z);
    proof {
        lemma_year_from_epoch(z as int);
    }
    let mut out = padded(y as u64, 4);
    push_str(&mut out, "-");
    extend_chars(&mut out, &padded(m as u64, 2));
    push_str(&mut out, "-");
    extend_chars(&mut out, &padded(d as u64, 2));
    string_of(&out)
}

pub fn monthly_key(ts: u128) -> (r: String)
    requires
        days_fit(ts),
    ensures
        r@ == monthly_key_spec(ts),
{
    let z = days_since_epoch(ts);
    let (y, m, _) = civil_from_days(z);
    proof {
        lemma_year_from_epoch(z as int);
    }
    let mut out = padded(y as u64, 4);
    push_str(&mut out, "-");
    extend_chars(&mut out, &padded(m as u64, 2));
    string_of(&out)
}

pub fn weekly_key(ts: u128) -> (r: String)
    requires
        days_fit(ts),
    ensures
        r@ == weekly_key_spec(ts),
{
    let z = days_since_epoch(ts);
    // 1970-01-01 (z=0) was a Thursday; Monday=0..Sunday=6 for the week-start offset.
    let weekday0 = (z + 3) % 7;
    let week_start = z - weekday0;
    let (_, sm, sd) = civil_from_days(week_start);
    let (_, em, ed) = civil_from_days(week_start + 6);
    let mut out = padded(sm as u64, 2);
    push_str(&mut out, "-");
    extend_chars(&mut out, &padded(sd as u64, 2));
    push_str(&mut out, " to ");
    extend_chars(&mut out, &padded(em as u64, 2));
    push_str(&mut out, "-");
    extend_chars(&mut out, &padded(ed as u64, 2));
    string_of(&out)
}


/// How an entry is listed: the verb when no command was recorded, else the command and
/// its first argument, if any.
pub open spec fn display_name_spec(e: EntryView) -> Seq<char> {
    if e.command.len() == 0 {
        e.verb
    } else if e.args.len() > 0 {
        e.command + " "@ + e.args[0]
    } else {
        e.command
    }
}

pub fn display_name(entry: &UsageEntry) -> (r: String)
    ensures
        r@ == display_name_spec(entry@),
{
    let command = chars_of(entry.command.as_str());
    if command.len() == 0 {
        entry.verb.clone()
    } else if entry.args.len() > 0 {
        let mut out = chars_of(entry.command.as_str());
        push_str(&mut out, " ");
        push_str(&mut out, entry.args[0].as_str());
        string_of(&out)
    } else {
        entry.command.clone()
    }
}

/// `field` as a CSV field: quoted, with embedded quotes doubled, whenever it holds a
/// comma, a quote or a line break -- names come from recorded command and argument text,
/// which can hold any of those.
pub open spec fn csv_field_spec(field: Seq<char>) -> Seq<char> {
    if field.contains(',') || field.contains('"') || field.contains('\n') {
        "\""@ + double_quotes(field) + "\""@
    } else {
        field
    }
}

/// `s` with every quote doubled.
pub open spec fn double_quotes(s: Seq<char>) -> Seq<char>
    decreases s.len(),
{
    if s.len() == 0 {
        Seq::empty()
    } else {
        double_quotes(s.drop_last()) + if s.last() == '"' { seq!['"', '"'] } else { seq![s.last()] }
    }
}

pub fn csv_field(field: &str) -> (r: String)
    ensures
        r@ == csv_field_spec(field@),
{
    let cs = chars_of(field);
    let mut needs_quotes = false;
    let mut quoted: Vec<char> = Vec::new();
    let mut i: usize = 0;
    while i < cs.len()
        invariant
            i <= cs.len(),
            quoted@ == double_quotes(cs@.take(i as int)),
            needs_quotes == (cs@.take(i as int).contains(',') || cs@.take(i as int).contains('"') || cs@.take(i as int).contains('\n')),
        decreases cs.len() - i,
    {
        let c = cs[i];
        let ghost t = cs@.take(i + 1);
        assert(t.drop_last() == cs@.take(i as int));
        assert(t.last() == c);
        if c == '"' {
            quoted.push('"');
            quoted.push('"');
        } else {
            quoted.push(c);
        }
        if c == ',' || c == '"' || c == '\n' {
            needs_quotes = true;
        }
        proof {
            assert forall|x: char| t.contains(x) <==> (cs@.take(i as int).contains(x) || x == c) by {
                if t.contains(x) {
                    let k = choose|k: int| 0 <= k < t.len() && t[k] == x;
                    if k < i {
                        assert(cs@.take(i as int)[k] == x);
                    }
                }
                if cs@.take(i as int).contains(x) {
                    let k = choose|k: int| 0 <= k < i && cs@.take(i as int)[k] == x;
                    assert(t[k] == x);
                }
                if x == c {
                    assert(t[i as int] == x);
                }
            }
        }
        i += 1;
    }
    assert(cs@.take(cs.len() as int) == cs@);
    if needs_quotes {
        let mut out = chars_of("\"");
        extend_chars(&mut out, &quoted);
        push_str(&mut out, "\"");
        string_of(&out)
    } else {
        field.to_string()
    }
}


/// The entry has both token counts recorded.
pub open spec fn is_tracked(e: EntryView) -> bool {
    e.input_tokens is Some && e.output_tokens is Some
}

/// The entries `gain` summarizes: those with both token counts, and with project scope
/// only those recorded from the working directory `cwd`, in history order.
pub open spec fn selected(entries: Seq<EntryView>, project_scope: bool, cwd: Option<Seq<char>>) -> Seq<EntryView>
    decreases entries.len(),
{
    if entries.len() == 0 {
        Seq::empty()
    } else {
        let rest = selected(entries.drop_last(), project_scope, cwd);
        let e = entries.last();
        if is_tracked(e) && (!project_scope || e.cwd == cwd) {
            rest.push(e)
        } else {
            rest
        }
    }
}

pub open spec fn entry_views(es: Seq<UsageEntry>) -> Seq<EntryView> {
    es.map_values(|e: UsageEntry| e@)
}

/// Picks out the entries `gain` summarizes (see [`selected`]).
pub fn select_entries(all: &Vec<UsageEntry>, project_scope: bool, cwd: &Option<String>) -> (r: Vec<UsageEntry>)
    ensures
        entry_views(r@) == selected(entry_views(all@), project_scope, crate::history::opt_view(*cwd)),
{
    let ghost es = entry_views(all@);
    let ghost c = crate::history::opt_view(*cwd);
    let cwd_chars: Option<Vec<char>> = match cwd {
        Some(s) => Some(chars_of(s.as_str())),
        None => None,
    };
    let mut out: Vec<UsageEntry> = Vec::new();
    let mut i: usize = 0;
    while i < all.len()
        invariant
            i <= all.len(),
            es == entry_views(all@),
            c == crate::history::opt_view(*cwd),
            match cwd_chars { Some(v) => c == Some(v@), None => c is None },
            entry_views(out@) == selected(es.take(i as int), project_scope, c),
        decreases all.len() - i,
    {
        let e = &all[i];
        let ghost t = es.take(i + 1);
        assert(t.drop_last() == es.take(i as int));
        assert(t.last() == e@);
        let tracked_entry = e.input_tokens.is_some() && e.output_tokens.is_some();
        let in_scope = if !project_scope {
            true
        } else {
            match (&e.cwd, &cwd_chars) {
                (None, None) => true,
                (Some(a), Some(b)) => crate::text::eq_chars(&chars_of(a.as_str()), b),
                _ => false,
            }
        };
        if tracked_entry && in_scope {
            let ghost before = entry_views(out@);
            let d = e.duplicate();
            out.push(d);
            assert(entry_views(out@) == before.push(d@));
        }
        i += 1;
    }
    assert(es.take(all.len() as int) == es);
    out
}

/// The totals `gain` reports for some entries: how many, the tokens seen going in and
/// rendered going out, and the tokens saved (never negative).
pub struct Totals {
    pub commands: usize,
    pub input: u128,
    pub output: u128,
    pub saved: u128,
}

pub open spec fn count_of(v: Option<usize>) -> nat {
    match v {
        Some(n) => n as nat,
        None => 0,
    }
}

pub open spec fn sum_input(es: Seq<EntryView>) -> nat
    decreases es.len(),
{
    if es.len() == 0 { 0 } else { sum_input(es.drop_last()) + count_of(es.last().input_tokens) }
}

pub open spec fn sum_output(es: Seq<EntryView>) -> nat
    decreases es.len(),
{
    if es.len() == 0 { 0 } else { sum_output(es.drop_last()) + count_of(es.last().output_tokens) }
}

proof fn lemma_sums_bounded(es: Seq<EntryView>)
    ensures
        sum_input(es) <= es.len() * (usize::MAX as nat),
        sum_output(es) <= es.len() * (usize::MAX as nat),
    decreases es.len(),
{
    if es.len() > 0 {
        lemma_sums_bounded(es.drop_last());
        assert(sum_input(es) <= (es.len() - 1) * (usize::MAX as nat) + usize::MAX) by (nonlinear_arith)
            requires
                sum_input(es.drop_last()) <= (es.len() - 1) * (usize::MAX as nat),
                count_of(es.last().input_tokens) <= usize::MAX,
                sum_input(es) == sum_input(es.drop_last()) + count_of(es.last().input_tokens),
        {
        }
        assert(sum_output(es) <= (es.len() - 1) * (usize::MAX as nat) + usize::MAX) by (nonlinear_arith)
            requires
                sum_output(es.drop_last()) <= (es.len() - 1) * (usize::MAX as nat),
                count_of(es.last().output_tokens) <= usize::MAX,
                sum_output(es) == sum_output(es.drop_last()) + count_of(es.last().output_tokens),
        {
        }
    }
}

/// Adds up `entries`' token counts; what was saved is what went in less what came out,
/// or nothing when more came out.
pub fn summarize(entries: &[UsageEntry]) -> (r: Totals)
    ensures
        r.commands == entries@.len(),
        r.input == sum_input(entry_views(entries@)),
        r.output == sum_output(entry_views(entries@)),
        r.saved == if r.input >= r.output { r.input - r.output } else { 0 },
{
    let ghost es = entry_views(entries@);
    let mut input: u128 = 0;
    let mut output: u128 = 0;
    let mut i: usize = 0;
    while i < entries.len()
        invariant
            i <= entries.len(),
            es == entry_views(entries@),
            input == sum_input(es.take(i as int)),
            output == sum_output(es.take(i as int)),
        decreases entries.len() - i,
    {
        let ghost t = es.take(i + 1);
        assert(t.drop_last() == es.take(i as int));
        assert(t.last() == entries@[i as int]@);
        proof {
            lemma_sums_bounded(t);
            assert(t.len() * (usize::MAX as nat) <= (usize::MAX as nat) * (usize::MAX as nat)) by (nonlinear_arith)
                requires
                    t.len() <= usize::MAX,
            {
            }
            assert((usize::MAX as nat) * (usize::MAX as nat) <= u128::MAX) by (nonlinear_arith);
        }
        input = input + match entries[i].input_tokens { Some(n) => n as u128, None => 0 };
        output = output + match entries[i].output_tokens { Some(n) => n as u128, None => 0 };
        i += 1;
    }
    assert(es.take(entries.len() as int) == es);
    Totals {
        commands: entries.len(),
        input,
        output,
        saved: if input >= output { input - output } else { 0 },
    }
}


/// What entries are grouped by: the command they ran (its display name), or the day, the
/// week or the month they were recorded in.
#[derive(Debug, Clone, Copy, PartialEq, Eq, Structural)]
pub enum GroupKey {
    Command,
    Day,
    Week,
    Month,
}

/// The group an entry falls in under `key`.
pub open spec fn key_spec(e: EntryView, key: GroupKey) -> Seq<char> {
    match key {
        GroupKey::Command => display_name_spec(e),
        GroupKey::Day => daily_key_spec(e.timestamp_unix_millis),
        GroupKey::Week => weekly_key_spec(e.timestamp_unix_millis),
        GroupKey::Month => monthly_key_spec(e.timestamp_unix_millis),
    }
}

/// The entry's group under `key` can be computed: calendar keys need a timestamp whose
/// day count fits the date arithmetic.
pub open spec fn keyable(e: EntryView, key: GroupKey) -> bool {
    key == GroupKey::Command || days_fit(e.timestamp_unix_millis)
}

pub open spec fn all_keyable(es: Seq<EntryView>, key: GroupKey) -> bool {
    forall|i: int| 0 <= i < es.len() ==> keyable(#[trigger] es[i], key)
}

pub fn key_of(entry: &UsageEntry, key: GroupKey) -> (r: String)
    requires
        keyable(entry@, key),
    ensures
        r@ == key_spec(entry@, key),
{
    match key {
        GroupKey::Command => display_name(entry),
        GroupKey::Day => daily_key(entry.timestamp_unix_millis),
        GroupKey::Week => weekly_key(entry.timestamp_unix_millis),
        GroupKey::Month => monthly_key(entry.timestamp_unix_millis),
    }
}

/// The names listed in `keys` are strictly ascending.
pub open spec fn strictly_sorted(keys: Seq<Seq<char>>) -> bool {
    forall|i: int, j: int| 0 <= i < j < keys.len() ==> lex_lt(keys[i], keys[j])
}

/// The entries of `es` in the group `name` under `key`, in order.
pub open spec fn keyed(es: Seq<EntryView>, key: GroupKey, name: Seq<char>) -> Seq<EntryView>
    decreases es.len(),
{
    if es.len() == 0 {
        Seq::empty()
    } else if key_spec(es.last(), key) == name {
        keyed(es.drop_last(), key, name).push(es.last())
    } else {
        keyed(es.drop_last(), key, name)
    }
}

/// The entries of `es` listed under the display name `name`, in order.
pub open spec fn named(es: Seq<EntryView>, name: Seq<char>) -> Seq<EntryView> {
    keyed(es, GroupKey::Command, name)
}

pub open spec fn group_views(groups: Seq<(String, Vec<UsageEntry>)>) -> Seq<(Seq<char>, Seq<EntryView>)> {
    groups.map_values(|g: (String, Vec<UsageEntry>)| (g.0@, entry_views(g.1@)))
}

/// The distinct keys of `entries` under `key`, in ascending order.
#[verifier::rlimit(60)]
#[verifier::spinoff_prover]
fn sorted_keys(entries: &[UsageEntry], key: GroupKey) -> (r: Vec<Vec<char>>)
    requires
        all_keyable(entry_views(entries@), key),
    ensures
        strictly_sorted(r@.map_values(|k: Vec<char>| k@)),
        forall|i: int| 0 <= i < entries@.len() ==> r@.map_values(|k: Vec<char>| k@).contains(
            key_spec(#[trigger] entries@[i]@, key),
        ),
        forall|k: int| 0 <= k < r@.len() ==> entry_views(entries@).map_values(|e: EntryView| key_spec(e, key)).contains(
            #[trigger] r@[k]@,
        ),
{
    let ghost names = entry_views(entries@).map_values(|e: EntryView| key_spec(e, key));
    let mut keys: Vec<Vec<char>> = Vec::new();
    let mut n: usize = 0;
    while n < entries.len()
        invariant
            n <= entries.len(),
            strictly_sorted(keys@.map_values(|k: Vec<char>| k@)),
            forall|i: int| 0 <= i < n ==> keys@.map_values(|k: Vec<char>| k@).contains(
                key_spec(#[trigger] entries@[i]@, key),
            ),
            names == entry_views(entries@).map_values(|e: EntryView| key_spec(e, key)),
            all_keyable(entry_views(entries@), key),
            forall|k: int| 0 <= k < keys@.len() ==> names.take(n as int).contains(#[trigger] keys@[k]@),
        decreases entries.len() - n,
    {
        assert(keyable(entry_views(entries@)[n as int], key));
        let name = chars_of(key_of(&entries[n], key).as_str());
        let ghost ks = keys@.map_values(|k: Vec<char>| k@);
        let mut p: usize = 0;
        while p < keys.len() && lex_less(&keys[p], &name)
            invariant
                p <= keys.len(),
                ks == keys@.map_values(|k: Vec<char>| k@),
                forall|j: int| 0 <= j < p ==> lex_lt(ks[j], name@),
            decreases keys.len() - p,
        {
            p += 1;
        }
        if p < keys.len() && crate::text::eq_chars(&keys[p], &name) {
            assert(ks[p as int] == name@);
        } else {
            proof {
                if p < keys.len() {
                    lemma_lex_total(ks[p as int], name@);
                }
                assert forall|j: int| p <= j < ks.len() implies lex_lt(name@, ks[j]) by {
                    if j > p {
                        lemma_lex_transitive(name@, ks[p as int], ks[j]);
                    }
                }
            }
            keys.insert(p, name);
            proof {
                let ks2 = keys@.map_values(|k: Vec<char>| k@);
                assert(ks2 == ks.insert(p as int, name@));
                assert forall|i: int, j: int| 0 <= i < j < ks2.len() implies lex_lt(ks2[i], ks2[j]) by {
                    if i < p && j > p {
                        lemma_lex_transitive(ks2[i], name@, ks2[j]);
                    }
                }
                assert forall|i: int| 0 <= i < n implies ks2.contains(key_spec(#[trigger] entries@[i]@, key)) by {
                    let k = choose|k: int| 0 <= k < ks.len() && ks[k] == key_spec(entries@[i]@, key);
                    if k < p {
                        assert(ks2[k] == ks[k]);
                    } else {
                        assert(ks2[k + 1] == ks[k]);
                    }
                }
                assert(ks2[p as int] == name@);
            }
        }
        proof {
            let ks2 = keys@.map_values(|k: Vec<char>| k@);
            assert(ks2.contains(key_spec(entries@[n as int]@, key))) by {
                assert(ks2[p as int] == name@);
            }
            let t = names.take(n + 1);
            assert(t[n as int] == name@);
            assert forall|k: int| 0 <= k < keys@.len() implies t.contains(#[trigger] keys@[k]@) by {
                if keys@[k]@ == name@ {
                    assert(t[n as int] == keys@[k]@);
                } else {
                    assert(ks.contains(keys@[k]@)) by {
                        if k < p {
                            assert(ks[k] == keys@[k]@);
                        } else if k == p {
                        } else if p < keys@.len() && ks.len() < keys@.len() {
                            assert(ks[k - 1] == keys@[k]@);
                        } else {
                            assert(ks[k] == keys@[k]@);
                        }
                    }
                    let k0 = choose|k0: int| 0 <= k0 < ks.len() && ks[k0] == keys@[k]@;
                    let j = choose|j: int| 0 <= j < n && names.take(n as int)[j] == ks[k0];
                    assert(t[j] == keys@[k]@);
                }
            }
        }
        n += 1;
    }
    assert(names.take(entries.len() as int) == names);
    keys
}

/// The entries of `entries` in the group `name` under `key`, in order.
fn entries_keyed(entries: &[UsageEntry], key: GroupKey, name: &[char]) -> (r: Vec<UsageEntry>)
    requires
        all_keyable(entry_views(entries@), key),
    ensures
        entry_views(r@) == keyed(entry_views(entries@), key, name@),
{
    let ghost es = entry_views(entries@);
    let mut out: Vec<UsageEntry> = Vec::new();
    let mut i: usize = 0;
    while i < entries.len()
        invariant
            i <= entries.len(),
            es == entry_views(entries@),
            entry_views(out@) == keyed(es.take(i as int), key, name@),
            all_keyable(es, key),
        decreases entries.len() - i,
    {
        let ghost t = es.take(i + 1);
        assert(t.drop_last() == es.take(i as int));
        assert(t.last() == entries@[i as int]@);
        assert(keyable(es[i as int], key));
        let n = chars_of(key_of(&entries[i], key).as_str());
        if crate::text::eq_chars(&n, name) {
            let ghost before = entry_views(out@);
            let d = entries[i].duplicate();
            out.push(d);
            assert(entry_views(out@) == before.push(d@));
        }
        i += 1;
    }
    assert(es.take(entries.len() as int) == es);
    out
}

/// The keys of `es` under `key`.
pub open spec fn keys_of(es: Seq<EntryView>, key: GroupKey) -> Seq<Seq<char>> {
    es.map_values(|e: EntryView| key_spec(e, key))
}

/// The distinct keys of `es` under `key`, in ascending order.
pub open spec fn group_keys(es: Seq<EntryView>, key: GroupKey) -> Seq<Seq<char>> {
    choose|ks: Seq<Seq<char>>| strictly_sorted(ks) && (forall|x: Seq<char>| ks.contains(x) <==> keys_of(es, key).contains(x))
}

/// `es` grouped under `key`: each distinct key in ascending order, with the entries
/// under it in their original order.
pub open spec fn groups_spec(es: Seq<EntryView>, key: GroupKey) -> Seq<(Seq<char>, Seq<EntryView>)> {
    group_keys(es, key).map_values(|k: Seq<char>| (k, keyed(es, key, k)))
}

/// Two strictly ascending lists with the same members are the same list.
pub proof fn lemma_sorted_unique(a: Seq<Seq<char>>, b: Seq<Seq<char>>)
    requires
        strictly_sorted(a),
        strictly_sorted(b),
        forall|x: Seq<char>| a.contains(x) <==> b.contains(x),
    ensures
        a == b,
    decreases a.len(),
{
    if a.len() == 0 {
        if b.len() > 0 {
            assert(b.contains(b[0]));
        }
        assert(b.len() == 0);
    } else {
        assert(a.contains(a[0]));
        assert(b.len() > 0);
        assert(b.contains(b[0]));
        let j = choose|j: int| 0 <= j < b.len() && b[j] == a[0];
        let i = choose|i: int| 0 <= i < a.len() && a[i] == b[0];
        if i > 0 && j > 0 {
            assert(lex_lt(a[0], a[i]));
            assert(lex_lt(b[0], b[j]));
            lemma_lex_transitive(a[0], b[0], a[0]);
            lemma_lex_irreflexive(a[0]);
        } else if i > 0 {
            assert(b[0] == a[0]);
        }
        assert(a[0] == b[0]) by {
            if i > 0 && j == 0 {
            } else if i == 0 {
            }
        }
        let a1 = a.drop_first();
        let b1 = b.drop_first();
        assert forall|x: Seq<char>| a1.contains(x) <==> b1.contains(x) by {
            if a1.contains(x) {
                let k = choose|k: int| 0 <= k < a1.len() && a1[k] == x;
                assert(a[k + 1] == x);
                assert(lex_lt(a[0], x));
                lemma_lex_irreflexive(x);
                assert(b.contains(x));
                let m = choose|m: int| 0 <= m < b.len() && b[m] == x;
                assert(m != 0);
                assert(b1[m - 1] == x);
            }
            if b1.contains(x) {
                let k = choose|k: int| 0 <= k < b1.len() && b1[k] == x;
                assert(b[k + 1] == x);
                assert(lex_lt(b[0], x));
                lemma_lex_irreflexive(x);
                assert(a.contains(x));
                let m = choose|m: int| 0 <= m < a.len() && a[m] == x;
                assert(m != 0);
                assert(a1[m - 1] == x);
            }
        }
        lemma_sorted_unique(a1, b1);
        assert(a == seq![a[0]] + a1);
        assert(b == seq![b[0]] + b1);
    }
}

/// `entries` grouped under `key`, the keys in ascending order, each group's entries in
/// their original order.
pub fn group_by(entries: &[UsageEntry], key: GroupKey) -> (r: Vec<(String, Vec<UsageEntry>)>)
    requires
        all_keyable(entry_views(entries@), key),
    ensures
        group_views(r@) == groups_spec(entry_views(entries@), key),
        strictly_sorted(group_views(r@).map_values(|g: (Seq<char>, Seq<EntryView>)| g.0)),
        forall|k: int| 0 <= k < r@.len() ==> #[trigger] group_views(r@)[k].1 == keyed(entry_views(entries@), key, group_views(r@)[k].0),
        forall|k: int| 0 <= k < r@.len() ==> group_views(r@)[k].1.len() > 0,
        forall|i: int| 0 <= i < entries@.len() ==> group_views(r@).map_values(|g: (Seq<char>, Seq<EntryView>)| g.0).contains(
            key_spec(#[trigger] entries@[i]@, key),
        ),
{
    let keys = sorted_keys(entries, key);
    let ghost ks = keys@.map_values(|k: Vec<char>| k@);
    let mut groups: Vec<(String, Vec<UsageEntry>)> = Vec::new();
    let mut k: usize = 0;
    while k < keys.len()
        invariant
            k <= keys.len(),
            ks == keys@.map_values(|k: Vec<char>| k@),
            forall|j: int| 0 <= j < keys@.len() ==> entry_views(entries@).map_values(|e: EntryView| key_spec(e, key)).contains(
                #[trigger] keys@[j]@,
            ),
            group_views(groups@).map_values(|g: (Seq<char>, Seq<EntryView>)| g.0) == ks.take(k as int),
            groups@.len() == k,
            all_keyable(entry_views(entries@), key),
            forall|j: int| 0 <= j < k ==> #[trigger] group_views(groups@)[j].1 == keyed(entry_views(entries@), key, ks[j]),
            forall|j: int| 0 <= j < k ==> group_views(groups@)[j].1.len() > 0,
        decreases keys.len() - k,
    {
        let members = entries_keyed(entries, key, &keys[k]);
        proof {
            let names = entry_views(entries@).map_values(|e: EntryView| key_spec(e, key));
            assert(names.contains(keys@[k as int]@));
            let i = choose|i: int| 0 <= i < names.len() && names[i] == keys@[k as int]@;
            lemma_keyed_nonempty(entry_views(entries@), key, ks[k as int], i);
        }
        let ghost before = group_views(groups@);
        let g = (string_of(&keys[k]), members);
        groups.push(g);
        assert(group_views(groups@) == before.push((ks[k as int], entry_views(g.1@))));
        assert(ks.take(k + 1) == ks.take(k as int).push(ks[k as int]));
        k += 1;
    }
    assert(ks.take(keys.len() as int) == ks);
    proof {
        let es = entry_views(entries@);
        let gk = group_views(groups@).map_values(|g: (Seq<char>, Seq<EntryView>)| g.0);
        assert(gk == ks);
        assert forall|x: Seq<char>| ks.contains(x) <==> keys_of(es, key).contains(x) by {
            if ks.contains(x) {
                let k = choose|k: int| 0 <= k < ks.len() && ks[k] == x;
                assert(keys@[k]@ == x);
            }
            if keys_of(es, key).contains(x) {
                let i = choose|i: int| 0 <= i < es.len() && keys_of(es, key)[i] == x;
                assert(key_spec(entries@[i]@, key) == x);
            }
        }
        let chosen = group_keys(es, key);
        lemma_sorted_unique(chosen, ks);
        assert(group_views(groups@) =~= groups_spec(es, key));
    }
    groups
}

/// `entries` grouped by display name, the names in ascending order, each group's
/// entries in their original order.
pub fn by_command(entries: &[UsageEntry]) -> (r: Vec<(String, Vec<UsageEntry>)>)
    ensures
        strictly_sorted(group_views(r@).map_values(|g: (Seq<char>, Seq<EntryView>)| g.0)),
        forall|k: int| 0 <= k < r@.len() ==> #[trigger] group_views(r@)[k].1 == named(entry_views(entries@), group_views(r@)[k].0),
        forall|k: int| 0 <= k < r@.len() ==> group_views(r@)[k].1.len() > 0,
        forall|i: int| 0 <= i < entries@.len() ==> group_views(r@).map_values(|g: (Seq<char>, Seq<EntryView>)| g.0).contains(
            display_name_spec(#[trigger] entries@[i]@),
        ),
{
    let r = group_by(entries, GroupKey::Command);
    assert forall|i: int| 0 <= i < entries@.len() implies group_views(r@).map_values(|g: (Seq<char>, Seq<EntryView>)| g.0).contains(
        display_name_spec(#[trigger] entries@[i]@)) by {
        assert(key_spec(entries@[i]@, GroupKey::Command) == display_name_spec(entries@[i]@));
    }
    r
}

proof fn lemma_keyed_nonempty(es: Seq<EntryView>, key: GroupKey, name: Seq<char>, i: int)
    requires
        0 <= i < es.len(),
        key_spec(es[i], key) == name,
    ensures
        keyed(es, key, name).len() > 0,
    decreases es.len(),
{
    if i < es.len() - 1 {
        lemma_keyed_nonempty(es.drop_last(), key, name, i);
    }
}


/// Where `gain` stands once it has read its arguments and the history: finished with an
/// exit code (a usage error, a reset, the failures note, a failed read, or no data), or
/// with the options and the entries to report on.
pub enum GainStep {
    Done(i32),
    Report(Options, Vec<UsageEntry>),
}

pub open spec fn failures_note() -> Seq<char> {
    "No parse failures recorded.\nSTK's Specialists don't have a raw-execution fallback path this release."@
}

pub open spec fn no_data_note() -> Seq<char> {
    "No tracking data yet.\nRun some stk commands to start tracking savings."@
}

/// `stk gain` up to the report: reads the flags (a bad one is a usage error), resets the
/// history with `--reset`, shows the failures note with `--failures`, and otherwise reads
/// the history and selects the entries with token counts (with `--project`, only those
/// recorded from the working directory `cwd`). No such entries is said as such rather
/// than shown as a zeroed summary. What is said of the history's content holds of a
/// store that keeps a record (see `HistoryStore`).
pub fn dispatch<O: OutputSink, E: OutputSink, H: HistoryStore>(
    args: &[String],
    stdout: &mut O,
    stderr: &mut E,
    history: &mut H,
    cwd: &Option<String>,
) -> (r: GainStep)
    ensures
        match options_error(views(args@)) {
            Some(m) => {
                &&& r == GainStep::Done(2)
                &&& sent(*old(stderr), *final(stderr), line_bytes("stk: gain: "@ + m))
                &&& *final(stdout) == *old(stdout)
                &&& final(history).recorded() == old(history).recorded()
            },
            None => {
                let o = apply_options(views(args@), default_options());
                if o.reset {
                    &&& r == GainStep::Done(0) || r == GainStep::Done(1)
                    &&& old(history).always_succeeds() ==> r == GainStep::Done(0)
                    &&& r == GainStep::Done(0) ==> (old(history).keeps_record() ==> final(history).recorded() == Seq::<EntryView>::empty())
                        && sent(*old(stdout), *final(stdout), line_bytes("Savings history reset."@))
                        && *final(stderr) == *old(stderr)
                    &&& r == GainStep::Done(1) ==> *final(stdout) == *old(stdout) && exists|e: Seq<char>|
                        sent(*old(stderr), *final(stderr), line_bytes("stk: failed to reset history: "@ + e))
                } else if o.failures {
                    &&& r == GainStep::Done(0)
                    &&& sent(*old(stdout), *final(stdout), line_bytes(failures_note()))
                    &&& *final(stderr) == *old(stderr)
                    &&& final(history).recorded() == old(history).recorded()
                } else {
                    let chosen = selected(old(history).recorded(), o.project_scope, crate::history::opt_view(*cwd));
                    &&& final(history).recorded() == old(history).recorded()
                    &&& old(history).always_succeeds() ==> r != GainStep::Done(1)
                    &&& match r {
                        GainStep::Done(code) => {
                            ||| code == 0 && (old(history).keeps_record() ==> chosen.len() == 0) && *final(stderr) == *old(stderr)
                                && sent(*old(stdout), *final(stdout), line_bytes(no_data_note()))
                            ||| code == 1 && *final(stdout) == *old(stdout) && exists|e: Seq<char>|
                                sent(*old(stderr), *final(stderr), line_bytes("stk: failed to read history: "@ + e))
                        },
                        GainStep::Report(options, entries) => {
                            &&& options@ == o
                            &&& old(history).keeps_record() ==> entry_views(entries@) == chosen
                            &&& entries@.len() > 0
                            &&& *final(stdout) == *old(stdout)
                            &&& *final(stderr) == *old(stderr)
                        },
                    }
                }
            },
        },
{
    let options = match parse_options(args) {
        Ok(options) => options,
        Err(err) => {
            let mut msg = chars_of("stk: gain: ");
            push_str(&mut msg, err.as_str());
            let _ = write_line(stderr, &msg);
            return GainStep::Done(2);
        },
    };
    if options.reset {
        return match history.reset() {
            Ok(()) => {
                let _ = write_line(stdout, &chars_of("Savings history reset."));
                GainStep::Done(0)
            },
            Err(err) => {
                let mut msg = chars_of("stk: failed to reset history: ");
                push_str(&mut msg, err.as_str());
                let _ = write_line(stderr, &msg);
                GainStep::Done(1)
            },
        };
    }
    if options.failures {
        let _ = write_line(
            stdout,
            &chars_of("No parse failures recorded.\nSTK's Specialists don't have a raw-execution fallback path this release."),
        );
        return GainStep::Done(0);
    }
    let all = match history.read_all() {
        Ok(entries) => entries,
        Err(err) => {
            let mut msg = chars_of("stk: failed to read history: ");
            push_str(&mut msg, err.as_str());
            let _ = write_line(stderr, &msg);
            return GainStep::Done(1);
        },
    };
    assert(history.keeps_record() ==> entry_views(all@) == history.recorded());
    let entries = select_entries(&all, options.project_scope, cwd);
    if entries.len() == 0 {
        let _ = write_line(stdout, &chars_of("No tracking data yet.\nRun some stk commands to start tracking savings."));
        return GainStep::Done(0);
    }
    GainStep::Report(options, entries)
}

} // verus!
