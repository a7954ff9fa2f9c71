//! Configuration is read entirely from environment variables so the same code
//! runs locally and in CI. The program hands the variables over as
//! name/value pairs; this module turns them into a typed [`Config`].

use vstd::prelude::*;

use crate::text;

verus! {

/// The settings of one run.
#[derive(Debug, Clone)]
pub struct Config {
    /// Bluesky handle of the bot account, e.g. "arxiv-cs.bsky.social".
    pub handle: String,
    /// Bluesky APP PASSWORD (never the account's real password).
    pub app_password: String,
    /// PDS host. Almost always https://bsky.social.
    pub service: String,
    /// arXiv feed path, e.g. "cs.AI" or "cs.AI+cs.LG".
    pub categories: String,
    /// Which announce types to post. Default: only brand-new papers.
    pub announce_types: Vec<String>,
    /// Force a specific announcement date (YYYY-MM-DD). None = "today" in tz.
    pub target_date: Option<String>,
    /// Safety cap on how many posts a single run may emit.
    pub max_posts: usize,
    /// Delay between posts, to stay friendly with rate limits.
    pub post_delay_ms: u64,
    /// If true, log what would be posted but don't touch Bluesky.
    pub dry_run: bool,
    /// Timezone arXiv stamps its announcements in.
    pub time_zone: String,
    /// Number of time-windows to spread one day's batch across. 1 = post the
    /// whole batch in a single run. >1 = each run posts only the slice of the
    /// batch assigned to the current window.
    pub post_windows: u32,
}

/// Why no configuration could be built.
#[derive(Debug, Clone, PartialEq, Eq)]
pub enum ConfigError {
    /// A required variable is unset or empty; it carries the variable's name.
    MissingVariable(String),
}

impl ConfigError {
    /// The variable that is missing.
    pub fn variable(&self) -> (s: &str)
        ensures
            match self {
                ConfigError::MissingVariable(n) => s@ == n@,
            },
    {
        match self {
            ConfigError::MissingVariable(n) => n.as_str(),
        }
    }
}

/// An environment: name/value pairs.
pub type Env = Vec<(String, String)>;

/// The value of the first variable called `name`.
pub open spec fn lookup(env: Seq<(String, String)>, name: Seq<char>) -> Option<Seq<char>>
    decreases env.len(),
{
    if env.len() == 0 {
        None
    } else if env[0].0@ == name {
        Some(env[0].1@)
    } else {
        lookup(env.drop_first(), name)
    }
}

/// A required variable: its value when it is set and not empty.
pub open spec fn required_of(env: Seq<(String, String)>, name: Seq<char>) -> Option<Seq<char>> {
    match lookup(env, name) {
        Some(v) => if v.len() > 0 {
            Some(v)
        } else {
            None
        },
        None => None,
    }
}

/// An optional variable: its trimmed value, or `None` when unset or blank.
pub open spec fn opt_of(env: Seq<(String, String)>, name: Seq<char>) -> Option<Seq<char>> {
    match lookup(env, name) {
        Some(v) => if text::trim(v).len() > 0 {
            Some(text::trim(v))
        } else {
            None
        },
        None => None,
    }
}

/// Whether a (trimmed) value switches a flag on: "1", "true", "yes" or
/// "on" once lower-cased.
pub open spec fn is_on(v: Seq<char>) -> bool {
    let l = text::lowercase(v);
    l == "1"@ || l == "true"@ || l == "yes"@ || l == "on"@
}

/// A flag: on or off as its value says, `fallback` when unset or blank.
pub open spec fn bool_of(env: Seq<(String, String)>, name: Seq<char>, fallback: bool) -> bool {
    match opt_of(env, name) {
        Some(v) => is_on(v),
        None => fallback,
    }
}

/// The number that a sequence of decimal digits spells.
pub open spec fn digits_value(s: Seq<char>) -> int
    decreases s.len(),
{
    if s.len() == 0 {
        0
    } else {
        digits_value(s.drop_last()) * 10 + ((s.last() as u32) - 48)
    }
}

/// What an unsigned integer's `FromStr` reads: an optional `+` and at least
/// one decimal digit, nothing else (before the bound of the type applies).
pub open spec fn unsigned_value(s: Seq<char>) -> Option<int> {
    let d = unsigned_digits(s);
    if d.len() > 0 && all_digits(d) {
        Some(digits_value(d))
    } else {
        None
    }
}

/// `s` without a leading `+`.
pub open spec fn unsigned_digits(s: Seq<char>) -> Seq<char> {
    if s.len() > 0 && s[0] == '+' {
        s.drop_first()
    } else {
        s
    }
}

/// Whether every character is a decimal digit.
pub open spec fn all_digits(d: Seq<char>) -> bool {
    forall|i: int| 0 <= i < d.len() ==> text::is_digit(#[trigger] d[i])
}

/// An integer setting: the value when it parses as an unsigned number no
/// larger than `max`, else `fallback` (also when unset or blank).
pub open spec fn int_of(env: Seq<(String, String)>, name: Seq<char>, fallback: u64, max: u64) -> int {
    match opt_of(env, name) {
        Some(v) => match unsigned_value(v) {
            Some(n) => if n <= max {
                n
            } else {
                fallback as int
            },
            None => fallback as int,
        },
        None => fallback as int,
    }
}

/// The announce types of a comma-separated list: each piece trimmed and
/// lower-cased, empty ones dropped.
pub open spec fn announce_types_of(list: Seq<char>) -> Seq<Seq<char>> {
    text::split_on(list, ',').map_values(|s: Seq<char>| text::lowercase(text::trim(s))).filter(
        |s: Seq<char>| s.len() > 0,
    )
}

/// The value of an optional variable, or a default.
pub open spec fn opt_or(env: Seq<(String, String)>, name: Seq<char>, default: Seq<char>) -> Seq<
    char,
> {
    match opt_of(env, name) {
        Some(v) => v,
        None => default,
    }
}

proof fn lemma_digits_value_nonneg(s: Seq<char>)
    requires
        forall|i: int| 0 <= i < s.len() ==> text::is_digit(#[trigger] s[i]),
    ensures
        digits_value(s) >= 0,
    decreases s.len(),
{
    if s.len() > 0 {
        assert(text::is_digit(s[s.len() - 1]));
        lemma_digits_value_nonneg(s.drop_last());
    }
}

/// The value of the first variable called `name`.
pub fn lookup_env(env: &Env, name: &str) -> (r: Option<String>)
    ensures
        match r {
            Some(v) => lookup(env@, name@) == Some(v@),
            None => lookup(env@, name@) is None,
        },
{
    let key = String::from_str(name);
    let n = env.len();
    assert(env@.skip(0) =~= env@);
    let mut i: usize = 0;
    while i < n
        invariant
            n == env@.len(),
            i <= n,
            key@ == name@,
            lookup(env@, name@) == lookup(env@.skip(i as int), name@),
        decreases n - i,
    {
        assert(env@.skip(i as int)[0] == env@[i as int]);
        assert(env@.skip(i as int).drop_first() =~= env@.skip(i as int + 1));
        if env[i].0 == key {
            return Some(env[i].1.clone());
        }
        i = i + 1;
    }
    None
}

/// A required variable: its value when set and not empty.
pub fn required(env: &Env, name: &str) -> (r: Result<String, ConfigError>)
    ensures
        match r {
            Ok(v) => required_of(env@, name@) == Some(v@),
            Err(ConfigError::MissingVariable(n)) => required_of(env@, name@) is None && n@
                == name@,
        },
{
    match lookup_env(env, name) {
        Some(v) => {
            if !v.as_str().is_empty() {
                Ok(v)
            } else {
                Err(ConfigError::MissingVariable(String::from_str(name)))
            }
        },
        None => Err(ConfigError::MissingVariable(String::from_str(name))),
    }
}

/// Optional string: trimmed value, or `None` when unset/blank.
pub fn opt(env: &Env, name: &str) -> (r: Option<String>)
    ensures
        match r {
            Some(v) => opt_of(env@, name@) == Some(v@),
            None => opt_of(env@, name@) is None,
        },
{
    match lookup_env(env, name) {
        Some(v) => {
            let t = text::trim_str(v.as_str());
            if !t.as_str().is_empty() {
                Some(t)
            } else {
                None
            }
        },
        None => None,
    }
}

/// Whether a value is "1", "true", "yes" or "on" once lower-cased.
fn is_on_exec(v: &str) -> (b: bool)
    ensures
        b == is_on(v@),
{
    let l = text::to_lowercase(v);
    l == String::from_str("1") || l == String::from_str("true") || l == String::from_str("yes")
        || l == String::from_str("on")
}

/// A boolean flag, `fallback` when unset or blank.
pub fn bool_env(env: &Env, name: &str, fallback: bool) -> (b: bool)
    ensures
        b == bool_of(env@, name@, fallback),
{
    match opt(env, name) {
        Some(v) => is_on_exec(v.as_str()),
        None => fallback,
    }
}

/// Read an unsigned decimal number no larger than `max`.
pub fn parse_unsigned(s: &str, max: u64) -> (r: Option<u64>)
    ensures
        match r {
            Some(n) => unsigned_value(s@) == Some(n as int) && n <= max,
            None => unsigned_value(s@) is None || unsigned_value(s@)->0 > max,
        },
{
    let cs = text::chars_of(s);
    let start: usize = if cs.len() > 0 && cs[0] == '+' {
        1
    } else {
        0
    };
    let n = cs.len();
    let ghost d = if cs@.len() > 0 && cs@[0] == '+' {
        cs@.drop_first()
    } else {
        cs@
    };
    assert(d =~= cs@.skip(start as int));
    if start == n {
        return None;
    }
    let mut value: u64 = 0;
    let mut over = false;
    let mut k: usize = start;
    while k < n
        invariant
            n == cs@.len(),
            cs@ == s@,
            start <= k <= n,
            d == cs@.skip(start as int),
            d == unsigned_digits(s@),
            forall|i: int| start <= i < k ==> text::is_digit(#[trigger] cs@[i]),
            !over ==> value == digits_value(cs@.subrange(start as int, k as int)) && value <= max,
            over ==> digits_value(cs@.subrange(start as int, k as int)) > max,
        decreases n - k,
    {
        let c = cs[k];
        let u = c as u32;
        if !(48 <= u && u <= 57) {
            assert(d[k - start] == c);
            assert(!text::is_digit(d[k - start]));
            return None;
        }
        let ghost prev = cs@.subrange(start as int, k as int);
        assert(cs@.subrange(start as int, k + 1).drop_last() =~= prev);
        proof {
            assert forall|i: int| 0 <= i < prev.len() implies text::is_digit(#[trigger] prev[i]) by {
                assert(prev[i] == cs@[start + i]);
            }
            lemma_digits_value_nonneg(prev);
        }
        let digit = (u - 48) as u64;
        if !over {
            if digit > max || value > (max - digit) / 10 {
                over = true;
            } else {
                value = value * 10 + digit;
            }
        }
        k = k + 1;
    }
    assert(cs@.subrange(start as int, n as int) =~= d);
    if over {
        None
    } else {
        Some(value)
    }
}

/// An integer setting, `fallback` when unset, blank, not a number or larger
/// than `max`.
pub fn int_env(env: &Env, name: &str, fallback: u64, max: u64) -> (n: u64)
    ensures
        n == int_of(env@, name@, fallback, max),
{
    match opt(env, name) {
        Some(v) => match parse_unsigned(v.as_str(), max) {
            Some(n) => n,
            None => fallback,
        },
        None => fallback,
    }
}


proof fn lemma_types_push(pieces: Seq<Seq<char>>, p: Seq<char>)
    ensures
        pieces.push(p).map_values(|s: Seq<char>| text::lowercase(text::trim(s))).filter(
            |s: Seq<char>| s.len() > 0,
        ) == (if text::lowercase(text::trim(p)).len() > 0 {
            pieces.map_values(|s: Seq<char>| text::lowercase(text::trim(s))).filter(
                |s: Seq<char>| s.len() > 0,
            ).push(text::lowercase(text::trim(p)))
        } else {
            pieces.map_values(|s: Seq<char>| text::lowercase(text::trim(s))).filter(
                |s: Seq<char>| s.len() > 0,
            )
        }),
{
    let f = |s: Seq<char>| text::lowercase(text::trim(s));
    let pred = |s: Seq<char>| s.len() > 0;
    assert(pieces.push(p).map_values(f) =~= pieces.map_values(f).push(f(p)));
    pieces.map_values(f).lemma_filter_push(f(p), pred);
}

/// Lower-case a trimmed piece and keep it when it is not empty.
fn push_type(types: &mut Vec<String>, piece: &Vec<char>)
    ensures
        text::string_views(final(types)@) == (if text::lowercase(text::trim(piece@)).len() > 0 {
            text::string_views(old(types)@).push(text::lowercase(text::trim(piece@)))
        } else {
            text::string_views(old(types)@)
        }),
{
    let t = text::trim_chars(piece);
    let ts = text::string_from_chars(t.as_slice());
    let l = text::to_lowercase(ts.as_str());
    if !l.as_str().is_empty() {
        let ghost old_types = types@;
        types.push(l);
        assert(text::string_views(types@) =~= text::string_views(old_types).push(
            text::lowercase(text::trim(piece@)),
        ));
    }
}

/// The announce types of a comma-separated list: each piece trimmed and
/// lower-cased, empty ones dropped.
pub fn parse_announce_types(list: &str) -> (types: Vec<String>)
    ensures
        text::string_views(types@) == announce_types_of(list@),
{
    let cs = text::chars_of(list);
    let n = cs.len();
    let mut types: Vec<String> = Vec::new();
    let mut cur: Vec<char> = Vec::new();
    let mut i: usize = 0;
    while i < n
        invariant
            n == cs@.len(),
            i <= n,
            text::split_on(cs@.take(i as int), ',').len() > 0,
            cur@ == text::split_on(cs@.take(i as int), ',').last(),
            text::string_views(types@) == text::split_on(cs@.take(i as int), ',').drop_last().map_values(
                |s: Seq<char>| text::lowercase(text::trim(s)),
            ).filter(|s: Seq<char>| s.len() > 0),
        decreases n - i,
    {
        let ghost pre = cs@.take(i as int);
        let ghost cur_take = cs@.take(i as int + 1);
        let ghost pieces = text::split_on(pre, ',');
        assert(cur_take.drop_last() =~= pre);
        if cs[i] == ',' {
            push_type(&mut types, &cur);
            proof {
                lemma_types_push(pieces.drop_last(), pieces.last());
                assert(pieces.drop_last().push(pieces.last()) =~= pieces);
                assert(text::split_on(cur_take, ',') == pieces.push(seq![]));
                assert(pieces.push(seq![]).drop_last() =~= pieces);
            }
            cur = Vec::new();
            assert(cur@ =~= seq![]);
        } else {
            cur.push(cs[i]);
            proof {
                let upd = pieces.update(pieces.len() - 1, pieces.last().push(cs@[i as int]));
                assert(text::split_on(cur_take, ',') == upd);
                assert(upd.drop_last() =~= pieces.drop_last());
            }
        }
        i = i + 1;
    }
    assert(cs@.take(n as int) =~= cs@);
    let ghost pieces = text::split_on(cs@, ',');
    push_type(&mut types, &cur);
    proof {
        lemma_types_push(pieces.drop_last(), pieces.last());
        assert(pieces.drop_last().push(pieces.last()) =~= pieces);
    }
    types
}

/// The plain content of a [`Config`].
pub struct ConfigView {
    pub handle: Seq<char>,
    pub app_password: Seq<char>,
    pub service: Seq<char>,
    pub categories: Seq<char>,
    pub announce_types: Seq<Seq<char>>,
    pub target_date: Option<Seq<char>>,
    pub max_posts: int,
    pub post_delay_ms: int,
    pub dry_run: bool,
    pub time_zone: Seq<char>,
    pub post_windows: int,
}

impl View for Config {
    type V = ConfigView;

    open spec fn view(&self) -> ConfigView {
        ConfigView {
            handle: self.handle@,
            app_password: self.app_password@,
            service: self.service@,
            categories: self.categories@,
            announce_types: text::string_views(self.announce_types@),
            target_date: match self.target_date {
                Some(d) => Some(d@),
                None => None,
            },
            max_posts: self.max_posts as int,
            post_delay_ms: self.post_delay_ms as int,
            dry_run: self.dry_run,
            time_zone: self.time_zone@,
            post_windows: self.post_windows as int,
        }
    }
}

/// The configuration an environment gives: the two Bluesky credentials
/// are required (the handle is checked first; an error names the missing
/// variable), everything else falls back to its default.
pub open spec fn config_of(env: Seq<(String, String)>) -> Result<ConfigView, Seq<char>> {
    match required_of(env, "BSKY_HANDLE"@) {
        None => Err("BSKY_HANDLE"@),
        Some(handle) => match required_of(env, "BSKY_APP_PASSWORD"@) {
            None => Err("BSKY_APP_PASSWORD"@),
            Some(app_password) => Ok(
                ConfigView {
                    handle: handle,
                    app_password: app_password,
                    service: opt_or(env, "BSKY_SERVICE"@, "https://bsky.social"@),
                    categories: opt_or(env, "ARXIV_CATEGORIES"@, "cs.AI"@),
                    announce_types: announce_types_of(opt_or(env, "ARXIV_ANNOUNCE_TYPES"@, "new"@)),
                    target_date: opt_of(env, "TARGET_DATE"@),
                    max_posts: int_of(env, "MAX_POSTS"@, 50, usize::MAX as u64),
                    post_delay_ms: int_of(env, "POST_DELAY_MS"@, 1500, u64::MAX),
                    dry_run: bool_of(env, "DRY_RUN"@, false),
                    time_zone: opt_or(env, "ARXIV_TIMEZONE"@, "America/New_York"@),
                    post_windows: int_of(env, "POST_WINDOWS"@, 6, u32::MAX as u64),
                },
            ),
        },
    }
}

/// An optional variable, or a default.
fn opt_or_default(env: &Env, name: &str, default: &str) -> (v: String)
    ensures
        v@ == opt_or(env@, name@, default@),
{
    match opt(env, name) {
        Some(v) => v,
        None => String::from_str(default),
    }
}

impl Config {
    /// The configuration of an environment, given as name/value pairs.
    pub fn from_env(env: &Env) -> (r: Result<Config, ConfigError>)
        ensures
            match r {
                Ok(c) => config_of(env@) == Ok::<ConfigView, Seq<char>>(c@),
                Err(ConfigError::MissingVariable(n)) => config_of(env@) == Err::<
                    ConfigView,
                    Seq<char>,
                >(n@),
            },
    {
        let types_list = opt_or_default(env, "ARXIV_ANNOUNCE_TYPES", "new");
        let announce_types = parse_announce_types(types_list.as_str());
        let handle = match required(env, "BSKY_HANDLE") {
            Ok(h) => h,
            Err(e) => return Err(e),
        };
        let app_password = match required(env, "BSKY_APP_PASSWORD") {
            Ok(p) => p,
            Err(e) => return Err(e),
        };
        let max_posts = int_env(env, "MAX_POSTS", 50, usize::MAX as u64);
        let post_windows = int_env(env, "POST_WINDOWS", 6, u32::MAX as u64);
        Ok(
            Config {
                handle: handle,
                app_password: app_password,
                service: opt_or_default(env, "BSKY_SERVICE", "https://bsky.social"),
                categories: opt_or_default(env, "ARXIV_CATEGORIES", "cs.AI"),
                announce_types: announce_types,
                target_date: opt(env, "TARGET_DATE"),
                max_posts: max_posts as usize,
                post_delay_ms: int_env(env, "POST_DELAY_MS", 1500, u64::MAX),
                dry_run: bool_env(env, "DRY_RUN", false),
                time_zone: opt_or_default(env, "ARXIV_TIMEZONE", "America/New_York"),
                post_windows: post_windows as u32,
            },
        )
    }
}

/// The values that switch a flag on, once trimmed and lower-cased.
pub open spec fn on_word(l: Seq<char>) -> bool {
    ||| l == seq!['1']
    ||| l == seq!['t', 'r', 'u', 'e']
    ||| l == seq!['y', 'e', 's']
    ||| l == seq!['o', 'n']
}

/// How a flag reads its value: unset or blank gives the fallback; a value
/// that, trimmed and lower-cased, is "1", "true", "yes" or "on" switches it
/// on; any other value switches it off.
pub proof fn law_flag_values(env: Seq<(String, String)>, name: Seq<char>, fallback: bool)
    ensures
        lookup(env, name) is None ==> bool_of(env, name, fallback) == fallback,
        forall|v: Seq<char>|
            lookup(env, name) == Some(v) && #[trigger] text::trim(v).len() == 0 ==> bool_of(
                env,
                name,
                fallback,
            ) == fallback,
        forall|v: Seq<char>|
            lookup(env, name) == Some(v) && #[trigger] text::trim(v).len() > 0 ==> (bool_of(
                env,
                name,
                fallback,
            ) == on_word(text::lowercase(text::trim(v)))),
{
    reveal_strlit("1");
    reveal_strlit("true");
    reveal_strlit("yes");
    reveal_strlit("on");
    assert("1"@ =~= seq!['1']);
    assert("true"@ =~= seq!['t', 'r', 'u', 'e']);
    assert("yes"@ =~= seq!['y', 'e', 's']);
    assert("on"@ =~= seq!['o', 'n']);
}

/// The dry-run switch follows `DRY_RUN` as a flag that is off by default:
/// "1", "true", "yes" or "on" (trimmed, lower-cased) turn it on, any other
/// value leaves it off.
pub proof fn law_dry_run(env: Seq<(String, String)>)
    ensures
        lookup(env, "DRY_RUN"@) is None ==> (config_of(env) matches Ok(c) ==> !c.dry_run),
        forall|v: Seq<char>|
            lookup(env, "DRY_RUN"@) == Some(v) && #[trigger] text::trim(v).len() > 0 ==> (
            config_of(env) matches Ok(c) ==> c.dry_run == on_word(text::lowercase(text::trim(v)))),
{
    law_flag_values(env, "DRY_RUN"@, false);
}

} // verus!
