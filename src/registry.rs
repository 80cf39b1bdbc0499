//! The watch registry: which channel of each guild triggers room creation.
use vstd::prelude::*;
use vstd::string::*;

verus! {

/// Why a configuration entry could not be read.
#[derive(PartialEq, Eq, Structural, Clone, Copy, Debug)]
pub enum ConfigError {
    /// The value holds no `:` between the guild and the channel.
    MissingSeparator,
    /// The part before the `:` is not a decimal 64-bit identifier.
    BadGuildId,
    /// The part after the `:` is not a decimal 64-bit identifier.
    BadChannelId,
}

pub open spec fn is_digit(c: char) -> bool {
    '0' <= c && c <= '9'
}

/// The number that a string of decimal digits denotes.
pub open spec fn digits_value(s: Seq<char>) -> int
    decreases s.len(),
{
    if s.len() == 0 {
        0
    } else {
        digits_value(s.drop_last()) * 10 + (s.last() as int - '0' as int)
    }
}

pub open spec fn all_digits(s: Seq<char>) -> bool {
    forall|i: int| 0 <= i < s.len() ==> is_digit(#[trigger] s[i])
}

/// A non-empty run of decimal digits whose value fits in 64 bits.
pub open spec fn decimal_of(s: Seq<char>) -> Option<u64> {
    if s.len() > 0 && all_digits(s) && digits_value(s) <= u64::MAX {
        Some(digits_value(s) as u64)
    } else {
        None
    }
}

/// The index of the first `:` in `s`, if any.
pub open spec fn first_colon(s: Seq<char>) -> Option<int> {
    if exists|i: int| 0 <= i < s.len() && s[i] == ':' {
        Some(choose|i: int| 0 <= i < s.len() && s[i] == ':' && forall|j: int| 0 <= j < i ==> s[j] != ':')
    } else {
        None
    }
}

/// What a `"<guild_id>:<trigger_channel_id>"` value denotes.
pub open spec fn entry_of(s: Seq<char>) -> Result<(u64, u64), ConfigError> {
    match first_colon(s) {
        None => Err(ConfigError::MissingSeparator),
        Some(k) => match decimal_of(s.subrange(0, k)) {
            None => Err(ConfigError::BadGuildId),
            Some(g) => match decimal_of(s.subrange(k + 1, s.len() as int)) {
                None => Err(ConfigError::BadChannelId),
                Some(c) => Ok((g, c)),
            },
        },
    }
}

/// The key prefix of the configuration variables that name watched channels.
pub open spec fn watch_prefix() -> Seq<char> {
    "WATCH_CHANNEL"@
}

pub open spec fn is_watch_key(k: Seq<char>) -> bool {
    k.len() >= watch_prefix().len() && k.subrange(0, watch_prefix().len() as int) == watch_prefix()
}

proof fn lemma_digits_prefix_monotone(s: Seq<char>, i: int)
    requires
        0 <= i <= s.len(),
        all_digits(s),
    ensures
        digits_value(s.take(i)) <= digits_value(s),
    decreases s.len() - i,
{
    if i < s.len() {
        lemma_digits_prefix_monotone(s, i + 1);
        assert(s.take(i + 1).drop_last() =~= s.take(i));
        assert(is_digit(s[i]));
        assert(digits_value(s.take(i)) >= 0) by {
            lemma_digits_nonneg(s.take(i));
        }
    } else {
        assert(s.take(i) =~= s);
    }
}

proof fn lemma_digits_nonneg(s: Seq<char>)
    requires
        all_digits(s),
    ensures
        digits_value(s) >= 0,
    decreases s.len(),
{
    if s.len() > 0 {
        assert(is_digit(s[s.len() - 1]));
        lemma_digits_nonneg(s.drop_last());
    }
}

/// Reads the decimal number in the characters `from..to` of `s`.
pub fn parse_decimal(s: &str, from: usize, to: usize) -> (r: Option<u64>)
    requires
        from <= to <= s@.len(),
    ensures
        r == decimal_of(s@.subrange(from as int, to as int)),
{
    let ghost t = s@.subrange(from as int, to as int);
    if from == to {
        return None;
    }
    let mut acc: u64 = 0;
    let mut i: usize = from;
    while i < to
        invariant
            from <= i <= to <= s@.len(),
            t == s@.subrange(from as int, to as int),
            all_digits(t.take(i - from)),
            acc as int == digits_value(t.take(i - from)),
        decreases to - i,
    {
        let c = s.get_char(i);
        assert(t[i - from] == c);
        if !('0' <= c && c <= '9') {
            assert(!all_digits(t));
            return None;
        }
        let d: u64 = (c as u32 - '0' as u32) as u64;
        assert(t.take(i + 1 - from).drop_last() =~= t.take(i - from));
        if acc > (u64::MAX - d) / 10 {
            proof {
                assert(acc * 10 + d > u64::MAX) by (nonlinear_arith)
                    requires acc > (u64::MAX - d) / 10, d <= 9;
                if all_digits(t) {
                    lemma_digits_prefix_monotone(t, i + 1 - from);
                }
            }
            return None;
        }
        acc = acc * 10 + d;
        i = i + 1;
    }
    assert(t.take(to - from) =~= t);
    Some(acc)
}

/// Reads a `"<guild_id>:<trigger_channel_id>"` configuration value.
pub fn parse_entry(value: &str) -> (r: Result<(u64, u64), ConfigError>)
    ensures
        r == entry_of(value@),
{
    let n = value.unicode_len();
    let mut k: usize = 0;
    while k < n && value.get_char(k) != ':'
        invariant
            n == value@.len(),
            k <= n,
            forall|j: int| 0 <= j < k ==> value@[j] != ':',
        decreases n - k,
    {
        k = k + 1;
    }
    if k == n {
        assert(!exists|i: int| 0 <= i < value@.len() && value@[i] == ':');
        return Err(ConfigError::MissingSeparator);
    }
    proof {
        let s = value@;
        assert(s[k as int] == ':');
        let c = choose|i: int| 0 <= i < s.len() && s[i] == ':' && forall|j: int| 0 <= j < i ==> s[j] != ':';
        assert(0 <= k < s.len() && s[k as int] == ':' && forall|j: int| 0 <= j < k ==> s[j] != ':');
        if c < k {
            assert(s[c] != ':');
        }
        if c > k {
            assert(s[k as int] != ':');
        }
        assert(first_colon(s) == Some(k as int));
    }
    match parse_decimal(value, 0, k) {
        None => Err(ConfigError::BadGuildId),
        Some(g) => match parse_decimal(value, k + 1, n) {
            None => Err(ConfigError::BadChannelId),
            Some(c) => Ok((g, c)),
        },
    }
}

/// Whether a configuration key names a watched channel.
pub fn is_watch_key_exec(key: &str) -> (r: bool)
    ensures
        r == is_watch_key(key@),
{
    let prefix = "WATCH_CHANNEL";
    proof {
        reveal_strlit("WATCH_CHANNEL");
    }
    let p = prefix.unicode_len();
    let n = key.unicode_len();
    if n < p {
        return false;
    }
    let mut i: usize = 0;
    while i < p
        invariant
            p == watch_prefix().len(),
            prefix@ == watch_prefix(),
            n == key@.len(),
            p <= n,
            i <= p,
            forall|j: int| 0 <= j < i ==> key@[j] == watch_prefix()[j],
        decreases p - i,
    {
        if key.get_char(i) != prefix.get_char(i) {
            assert(key@.subrange(0, p as int)[i as int] != watch_prefix()[i as int]);
            return false;
        }
        i = i + 1;
    }
    assert(key@.subrange(0, p as int) =~= watch_prefix());
    true
}

/// The trigger of guild `g` in a list of entries: a later entry for the
/// same guild replaces an earlier one.
pub open spec fn trigger_in(s: Seq<(u64, u64)>, g: u64) -> Option<u64>
    decreases s.len(),
{
    if s.len() == 0 {
        None
    } else if s.last().0 == g {
        Some(s.last().1)
    } else {
        trigger_in(s.drop_last(), g)
    }
}

/// The entries that a list of configuration variables gives, in order, or
/// the error of the first malformed watched entry.
pub open spec fn entries_of(vars: Seq<(String, String)>) -> Result<Seq<(u64, u64)>, ConfigError>
    decreases vars.len(),
{
    if vars.len() == 0 {
        Ok(Seq::empty())
    } else {
        match entries_of(vars.drop_last()) {
            Err(e) => Err(e),
            Ok(s) => if is_watch_key(vars.last().0@) {
                match entry_of(vars.last().1@) {
                    Err(e) => Err(e),
                    Ok(p) => Ok(s.push(p)),
                }
            } else {
                Ok(s)
            },
        }
    }
}

/// Whether entry `i` of `s` is the last one for its guild, so that no later
/// entry replaces it.
pub open spec fn is_last_for_guild(s: Seq<(u64, u64)>, i: int) -> bool {
    forall|j: int| i < j < s.len() ==> #[trigger] s[j].0 != s[i].0
}

/// The triggers of the first `k` entries of `s` that are in effect, in
/// configuration order: an entry replaced by a later one for its guild is
/// left out, so each watched guild gives exactly one trigger.
pub open spec fn targets_in(s: Seq<(u64, u64)>, k: int) -> Seq<u64>
    decreases k,
{
    if k <= 0 {
        Seq::empty()
    } else {
        let rest = targets_in(s, k - 1);
        if is_last_for_guild(s, k - 1) {
            rest.push(s[k - 1].1)
        } else {
            rest
        }
    }
}

/// An entry that no later entry replaces is the one that lookups of its guild
/// find: the triggers that a sweep prunes are exactly those in effect.
pub proof fn lemma_last_entry_in_effect(s: Seq<(u64, u64)>, i: int)
    requires
        0 <= i < s.len(),
        is_last_for_guild(s, i),
    ensures
        trigger_in(s, s[i].0) == Some(s[i].1),
    decreases s.len(),
{
    if i < s.len() - 1 {
        let d = s.drop_last();
        assert(s[s.len() - 1].0 != s[i].0);
        assert forall|j: int| i < j < d.len() implies #[trigger] d[j].0 != d[i].0 by {
            assert(d[j] == s[j]);
        }
        lemma_last_entry_in_effect(d, i);
    }
}

/// Maps each watched guild to its trigger channel. Built once, then only read.
pub struct WatchRegistry {
    entries: Vec<(u64, u64)>,
}

impl View for WatchRegistry {
    type V = Seq<(u64, u64)>;

    closed spec fn view(&self) -> Seq<(u64, u64)> {
        self.entries@
    }
}

impl WatchRegistry {
    /// The trigger channel of guild `g`, as a spec function.
    pub open spec fn trigger_of(&self, g: u64) -> Option<u64> {
        trigger_in(self@, g)
    }

    /// A registry with the given `(guild, trigger)` entries.
    pub fn from_entries(entries: Vec<(u64, u64)>) -> (r: WatchRegistry)
        ensures
            r@ == entries@,
    {
        WatchRegistry { entries }
    }

    /// Builds the registry from configuration variables: every variable whose key
    /// starts with `WATCH_CHANNEL` holds one `"<guild_id>:<trigger_channel_id>"`.
    pub fn from_vars(vars: &Vec<(String, String)>) -> (r: Result<WatchRegistry, ConfigError>)
        ensures
            match entries_of(vars@) {
                Ok(s) => r is Ok && r->Ok_0@ == s,
                Err(e) => r == Err::<WatchRegistry, ConfigError>(e),
            },
    {
        let mut entries: Vec<(u64, u64)> = Vec::new();
        let mut i: usize = 0;
        while i < vars.len()
            invariant
                i <= vars@.len(),
                entries_of(vars@.take(i as int)) == Ok::<Seq<(u64, u64)>, ConfigError>(entries@),
            decreases vars@.len() - i,
        {
            assert(vars@.take(i + 1).drop_last() =~= vars@.take(i as int));
            let key = vars[i].0.as_str();
            let value = vars[i].1.as_str();
            if is_watch_key_exec(key) {
                match parse_entry(value) {
                    Err(e) => {
                        proof {
                            lemma_entries_error_sticks(vars@, i + 1);
                        }
                        return Err(e);
                    },
                    Ok(p) => {
                        entries.push(p);
                    },
                }
            }
            i = i + 1;
        }
        assert(vars@.take(vars@.len() as int) =~= vars@);
        Ok(WatchRegistry { entries })
    }

    /// The trigger channel of guild `g`, if the guild is watched.
    pub fn lookup(&self, g: u64) -> (r: Option<u64>)
        ensures
            r == self.trigger_of(g),
    {
        let mut i: usize = self.entries.len();
        assert(self@.take(i as int) =~= self@);
        while i > 0
            invariant
                i <= self@.len(),
                trigger_in(self@, g) == trigger_in(self@.take(i as int), g),
            decreases i,
        {
            assert(self@.take(i as int).drop_last() =~= self@.take(i - 1));
            if self.entries[i - 1].0 == g {
                return Some(self.entries[i - 1].1);
            }
            i = i - 1;
        }
        None
    }

    /// The trigger channels that a periodic sweep prunes: one for each entry
    /// that is in effect, in configuration order.
    pub fn sweep_targets(&self) -> (r: Vec<u64>)
        ensures
            r@ == targets_in(self@, self@.len() as int),
    {
        let n = self.entries.len();
        let mut r: Vec<u64> = Vec::new();
        let mut i: usize = 0;
        while i < n
            invariant
                n == self@.len(),
                i <= n,
                r@ == targets_in(self@, i as int),
            decreases n - i,
        {
            let g = self.entries[i].0;
            let mut j: usize = i + 1;
            while j < n && self.entries[j].0 != g
                invariant
                    n == self@.len(),
                    i < j <= n,
                    g == self@[i as int].0,
                    forall|k: int| i < k < j ==> #[trigger] self@[k].0 != g,
                decreases n - j,
            {
                j = j + 1;
            }
            if j == n {
                r.push(self.entries[i].1);
            }
            i = i + 1;
        }
        r
    }

    /// The `(guild, trigger)` entries, in configuration order.
    pub fn entries(&self) -> (r: Vec<(u64, u64)>)
        ensures
            r@ == self@,
    {
        let mut r: Vec<(u64, u64)> = Vec::new();
        let mut i: usize = 0;
        while i < self.entries.len()
            invariant
                i <= self@.len(),
                r@ == self@.take(i as int),
            decreases self@.len() - i,
        {
            r.push(self.entries[i]);
            assert(r@ =~= self@.take(i + 1));
            i = i + 1;
        }
        assert(self@.take(i as int) =~= self@);
        r
    }
}

proof fn lemma_entries_error_sticks(vars: Seq<(String, String)>, i: int)
    requires
        0 <= i <= vars.len(),
        entries_of(vars.take(i)) is Err,
    ensures
        entries_of(vars) == entries_of(vars.take(i)),
    decreases vars.len() - i,
{
    if i < vars.len() {
        assert(vars.take(i + 1).drop_last() =~= vars.take(i));
        lemma_entries_error_sticks(vars, i + 1);
    } else {
        assert(vars.take(i) =~= vars);
    }
}

} // verus!
