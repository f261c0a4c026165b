//! One API key: what it is, and the bookkeeping that decides whether it may be
//! used now.

use crate::clock::{Clock, MAX_NANOS};
use vstd::prelude::*;
#[allow(unused_imports)]
use crate::clock::{is_reading, was_started};

verus! {

/// Who serves the API behind a key.
#[derive(Debug, Clone, Copy, PartialEq, Eq, Hash, Structural)]
pub enum Provider {
    OpenAI,
    Anthropic,
    Azure,
    Vertex,
    DeepSeek,
    MiniMax,
    OpenRouter,
    GLM,
    NVIDIA,
    Other,
}

/// The name of a provider, as it stands in messages.
pub open spec fn provider_name(provider: Provider) -> Seq<char> {
    match provider {
        Provider::OpenAI => "OpenAI"@,
        Provider::Anthropic => "Anthropic"@,
        Provider::Azure => "Azure"@,
        Provider::Vertex => "Vertex"@,
        Provider::DeepSeek => "DeepSeek"@,
        Provider::MiniMax => "MiniMax"@,
        Provider::OpenRouter => "OpenRouter"@,
        Provider::GLM => "GLM"@,
        Provider::NVIDIA => "NVIDIA"@,
        Provider::Other => "Other"@,
    }
}

impl Provider {
    /// The name of the provider, as it stands in messages.
    pub fn name(&self) -> (name: &'static str)
        ensures
            name@ == provider_name(*self),
    {
        match self {
            Provider::OpenAI => "OpenAI",
            Provider::Anthropic => "Anthropic",
            Provider::Azure => "Azure",
            Provider::Vertex => "Vertex",
            Provider::DeepSeek => "DeepSeek",
            Provider::MiniMax => "MiniMax",
            Provider::OpenRouter => "OpenRouter",
            Provider::GLM => "GLM",
            Provider::NVIDIA => "NVIDIA",
            Provider::Other => "Other",
        }
    }
}

/// How a pool picks one of the keys that may be used.
#[derive(Debug, Clone, Copy, PartialEq, Eq, Structural)]
pub enum RotationStrategy {
    RoundRobin,
    WeightedRandom,
    LeastUsed,
    LatencyBased,
}

impl Default for RotationStrategy {
    fn default() -> (strategy: RotationStrategy)
        ensures
            strategy == RotationStrategy::RoundRobin,
    {
        RotationStrategy::RoundRobin
    }
}

/// The length of a rate-limit window: one minute.
pub const WINDOW_NANOS: u128 = 60_000_000_000;

/// The bookkeeping of a key. Times are readings of the key's own clock.
#[derive(Debug, Clone, Copy)]
pub struct KeyState {
    /// How often the key was selected (it wraps after `u64::MAX`).
    pub usage_count: u64,
    /// The key rests while its clock stands before this time.
    pub cooldown_until: Option<u128>,
    /// When the key was last selected.
    pub last_used: Option<u128>,
    /// When the current rate-limit window began.
    pub window_start: u128,
    /// Requests let through in the current window.
    pub window_requests: u32,
    /// How many steps of backoff lie behind the key: 0, 1 or 2. A success takes
    /// none of them back; only the clearing of the cooldown does.
    pub backoff: u8,
    /// How many nanoseconds the last response took; `None` before the first.
    pub latency: Option<u64>,
}

/// What a key is to its users: its texts and numbers, and its bookkeeping.
#[verifier::ext_equal]
pub struct KeyView {
    pub id: Seq<char>,
    pub key: Seq<char>,
    pub provider: Provider,
    pub models: Seq<Seq<char>>,
    pub weight: u32,
    pub base_url: Option<Seq<char>>,
    pub max_rpm: Option<u32>,
    pub state: KeyState,
}

/// The texts of a list of strings.
pub open spec fn texts(strings: Seq<String>) -> Seq<Seq<char>> {
    strings.map_values(|s: String| s@)
}

/// The text of an optional string.
pub open spec fn opt_text(string: Option<String>) -> Option<Seq<char>> {
    match string {
        Some(s) => Some(s@),
        None => None,
    }
}

impl KeyView {
    /// The key rests after a failure.
    pub open spec fn cooling(self, now: u128) -> bool {
        self.state.cooldown_until matches Some(until) && until > now
    }

    /// The rate-limit window has run for a minute or longer.
    pub open spec fn window_over(self, now: u128) -> bool {
        now - self.state.window_start >= WINDOW_NANOS
    }

    /// The key with a new window, in which nothing was let through yet, if the
    /// old one is over.
    pub open spec fn in_current_window(self, now: u128) -> KeyView {
        if self.window_over(now) {
            KeyView { state: KeyState { window_start: now, window_requests: 0, ..self.state }, ..self }
        } else {
            self
        }
    }

    /// The quota of the current window is spent.
    pub open spec fn rate_limited(self, now: u128) -> bool {
        self.max_rpm matches Some(max) && !self.window_over(now) && self.state.window_requests
            >= max
    }

    /// One request asks to pass the rate limit: what becomes of the key, and
    /// whether the request passes.
    pub open spec fn rate_check(self, now: u128) -> (KeyView, bool) {
        match self.max_rpm {
            None => (self, true),
            Some(max) => {
                let key = self.in_current_window(now);
                if key.state.window_requests < max {
                    let requests = (key.state.window_requests + 1) as u32;
                    (KeyView { state: KeyState { window_requests: requests, ..key.state }, ..key }, true)
                } else {
                    (key, false)
                }
            },
        }
    }

    /// One request asks for the key: a resting key refuses and stays as it is,
    /// any other key leaves it to the rate limit.
    pub open spec fn availability(self, now: u128) -> (KeyView, bool) {
        if self.cooling(now) {
            (self, false)
        } else {
            self.rate_check(now)
        }
    }

    /// The key serves a model: its list is empty or names the model.
    pub open spec fn serves(self, model: Seq<char>) -> bool {
        self.models.len() == 0 || self.models.contains(model)
    }

    /// The key after its window was looked at: a key that has a quota and does not
    /// rest begins a new window if the old one is over. Nothing is counted.
    pub open spec fn looked_at(self, now: u128) -> KeyView {
        if self.cooling(now) || self.max_rpm is None {
            self
        } else {
            self.in_current_window(now)
        }
    }

    /// As `availability`, if the key serves the model that is asked for. A key that
    /// does not serve it refuses, and counts nothing.
    pub open spec fn availability_for(self, model: Option<Seq<char>>, now: u128) -> (KeyView, bool) {
        let serves = match model {
            Some(m) => self.serves(m),
            None => true,
        };
        if serves {
            self.availability(now)
        } else {
            (self.looked_at(now), false)
        }
    }

    /// The key is sent with a request: the request is counted, and the key marked
    /// as used.
    pub open spec fn sent(self, now: u128) -> KeyView {
        self.rate_check(now).0.used(now)
    }

    /// The key after it was selected.
    pub open spec fn used(self, now: u128) -> KeyView {
        KeyView {
            state: KeyState {
                usage_count: if self.state.usage_count == u64::MAX {
                    0
                } else {
                    (self.state.usage_count + 1) as u64
                },
                last_used: Some(now),
                ..self.state
            },
            ..self
        }
    }

    /// The key after a response that took so many nanoseconds.
    pub open spec fn timed(self, nanos: u64) -> KeyView {
        KeyView { state: KeyState { latency: Some(nanos), ..self.state }, ..self }
    }

    /// How long the key's last response took. A key that has not been measured
    /// counts as the fastest there can be.
    pub open spec fn latency(self) -> u64 {
        match self.state.latency {
            Some(nanos) => nanos,
            None => 0,
        }
    }

    /// The key after a failure: it rests for the given time, five times as long
    /// if it failed before, and twenty-five times from the third failure on.
    pub open spec fn failed(self, cooldown: u128, now: u128) -> KeyView {
        KeyView {
            state: KeyState {
                cooldown_until: Some((now + cooldown * backoff_factor(self.state.backoff)) as u128),
                backoff: if self.state.backoff < 2 {
                    (self.state.backoff + 1) as u8
                } else {
                    self.state.backoff
                },
                ..self.state
            },
            ..self
        }
    }

    /// The key with its rest ended and its backoff forgotten.
    pub open spec fn recovered(self) -> KeyView {
        KeyView { state: KeyState { cooldown_until: None, backoff: 0, ..self.state }, ..self }
    }

    /// How long the key still rests.
    pub open spec fn rest_left(self, now: u128) -> Option<u128> {
        if self.cooling(now) {
            Some((self.state.cooldown_until->0 - now) as u128)
        } else {
            None
        }
    }
}

/// By how much the cooldown is stretched after so many steps of backoff.
pub open spec fn backoff_factor(steps: u8) -> int {
    if steps == 0 {
        1
    } else if steps == 1 {
        5
    } else {
        25
    }
}

/// An API key.
pub struct KeyInfo {
    pub id: String,
    pub key: String,
    pub provider: Provider,
    pub models: Vec<String>,
    pub weight: u32,
    pub base_url: Option<String>,
    pub max_rpm: Option<u32>,
    pub(crate) state: KeyState,
    pub(crate) clock: Clock,
}

impl View for KeyInfo {
    type V = KeyView;

    open(crate) spec fn view(&self) -> KeyView {
        KeyView {
            id: self.id@,
            key: self.key@,
            provider: self.provider,
            models: texts(self.models@),
            weight: self.weight,
            base_url: opt_text(self.base_url),
            max_rpm: self.max_rpm,
            state: self.state,
        }
    }
}

impl Clone for KeyInfo {
    /// A copy of the key as it stands now, with the same clock.
    fn clone(&self) -> (copy: KeyInfo)
        ensures
            copy@ == self@,
            copy.own_clock() == self.own_clock(),
    {
        let copy = KeyInfo {
            id: self.id.clone(),
            key: self.key.clone(),
            provider: self.provider,
            models: self.models.clone(),
            weight: self.weight,
            base_url: self.base_url.clone(),
            max_rpm: self.max_rpm,
            state: self.state,
            clock: self.clock,
        };
        assert(texts(copy.models@) =~= texts(self.models@));
        copy
    }
}

impl KeyInfo {
    /// The clock that the key's times are read from. It is the same for as long as
    /// the key lives.
    pub open(crate) spec fn own_clock(&self) -> Clock {
        self.clock
    }

    /// A key for all models, of weight 1, without a quota. Its clock starts
    /// here, and with it its first rate-limit window.
    pub fn new(id: String, key: String, provider: Provider) -> (info: KeyInfo)
        ensures
            info@ == new_key(id@, key@, provider),
            was_started(info.own_clock()),
    {
        let info = KeyInfo {
            id,
            key,
            provider,
            models: Vec::new(),
            weight: 1,
            base_url: None,
            max_rpm: None,
            state: KeyState {
                usage_count: 0,
                cooldown_until: None,
                last_used: None,
                window_start: 0,
                window_requests: 0,
                backoff: 0,
                latency: None,
            },
            clock: Clock::start(),
        };
        assert(texts(info.models@) =~= Seq::empty());
        info
    }

    /// Limits the key to the given models; an empty list stands for all.
    pub fn with_models(self, models: Vec<String>) -> (info: KeyInfo)
        ensures
            info@ == (KeyView { models: texts(models@), ..self@ }),
            info.own_clock() == self.own_clock(),
    {
        let mut info = self;
        info.models = models;
        info
    }

    /// Sets the weight of the key.
    pub fn with_weight(self, weight: u32) -> (info: KeyInfo)
        ensures
            info@ == (KeyView { weight, ..self@ }),
            info.own_clock() == self.own_clock(),
    {
        let mut info = self;
        info.weight = weight;
        info
    }

    /// Sets the address of the API that the key is for.
    pub fn with_base_url(self, base_url: Option<String>) -> (info: KeyInfo)
        ensures
            info@ == (KeyView { base_url: opt_text(base_url), ..self@ }),
            info.own_clock() == self.own_clock(),
    {
        let mut info = self;
        info.base_url = base_url;
        info
    }

    /// Sets how many requests the key may serve in a minute.
    pub fn with_max_rpm(self, max_rpm: Option<u32>) -> (info: KeyInfo)
        ensures
            info@ == (KeyView { max_rpm, ..self@ }),
            info.own_clock() == self.own_clock(),
    {
        let mut info = self;
        info.max_rpm = max_rpm;
        info
    }

    /// Reads the clock of the key.
    pub fn now(&self) -> (now: u128)
        ensures
            now <= MAX_NANOS,
            is_reading(self.own_clock(), now),
    {
        self.clock.read()
    }

    /// One request asks to pass the rate limit at the time `now`.
    pub fn check_rate_limit_at(&mut self, now: u128) -> (passes: bool)
        ensures
            (final(self)@, passes) == old(self)@.rate_check(now),
            final(self).own_clock() == old(self).own_clock(),
    {
        let max_rpm: u32 = match self.max_rpm {
            None => {
                return true;
            },
            Some(max) => max,
        };
        if now >= self.state.window_start && now - self.state.window_start >= WINDOW_NANOS {
            self.state.window_start = now;
            self.state.window_requests = 0;
        }
        if self.state.window_requests >= max_rpm {
            return false;
        }
        self.state.window_requests = self.state.window_requests + 1;
        true
    }

    /// One request asks to pass the rate limit now.
    pub fn check_rate_limit(&mut self) -> (passes: bool)
        ensures
            exists|now: u128|
                now <= MAX_NANOS && is_reading(old(self).own_clock(), now) && (
                    final(self)@,
                    passes,
                ) == #[trigger] old(self)@.rate_check(now),
            final(self).own_clock() == old(self).own_clock(),
    {
        let now: u128 = self.now();
        self.check_rate_limit_at(now)
    }

    /// Whether the quota of the current window is spent at the time `now`.
    pub fn is_rate_limited_at(&self, now: u128) -> (limited: bool)
        ensures
            limited == self@.rate_limited(now),
    {
        match self.max_rpm {
            None => false,
            Some(max) => {
                if now >= self.state.window_start && now - self.state.window_start >= WINDOW_NANOS {
                    false
                } else {
                    self.state.window_requests >= max
                }
            },
        }
    }

    /// Whether the quota of the current window is spent now.
    pub fn is_rate_limited(&self) -> (limited: bool)
        ensures
            exists|now: u128|
                now <= MAX_NANOS && is_reading(self.own_clock(), now) && limited
                    == #[trigger] self@.rate_limited(now),
    {
        let now: u128 = self.now();
        self.is_rate_limited_at(now)
    }

    /// One request asks for the key at the time `now`.
    pub fn is_available_at(&mut self, now: u128) -> (available: bool)
        ensures
            (final(self)@, available) == old(self)@.availability(now),
            final(self).own_clock() == old(self).own_clock(),
    {
        if let Some(until) = self.state.cooldown_until {
            if until > now {
                return false;
            }
        }
        self.check_rate_limit_at(now)
    }

    /// One request asks for the key now.
    pub fn is_available(&mut self) -> (available: bool)
        ensures
            exists|now: u128|
                now <= MAX_NANOS && is_reading(old(self).own_clock(), now) && (
                    final(self)@,
                    available,
                ) == #[trigger] old(self)@.availability(now),
            final(self).own_clock() == old(self).own_clock(),
    {
        let now: u128 = self.now();
        self.is_available_at(now)
    }

    /// Whether the key serves a model.
    pub fn serves_model(&self, model: &str) -> (serves: bool)
        ensures
            serves == self@.serves(model@),
    {
        if self.models.len() == 0 {
            return true;
        }
        let wanted = model.to_owned();
        let mut i: usize = 0;
        while i < self.models.len()
            invariant
                i <= self.models.len(),
                wanted@ == model@,
                forall|j: int| 0 <= j < i ==> (#[trigger] self.models@[j])@ != model@,
            decreases self.models.len() - i,
        {
            if self.models[i] == wanted {
                assert(texts(self.models@)[i as int] == model@);
                return true;
            }
            i = i + 1;
        }
        assert(!texts(self.models@).contains(model@));
        false
    }

    /// One request for a model (or for any, with `None`) asks for the key at the
    /// time `now`.
    pub fn is_available_for_at(&mut self, model: Option<&str>, now: u128) -> (available: bool)
        ensures
            (final(self)@, available) == old(self)@.availability_for(opt_str(model), now),
            final(self).own_clock() == old(self).own_clock(),
    {
        let serves = match model {
            Some(model) => self.serves_model(model),
            None => true,
        };
        if serves {
            self.is_available_at(now)
        } else {
            self.look_at(now);
            false
        }
    }

    /// Looks at the window of the key at the time `now`: begins a new one if the old
    /// one is over, unless the key rests or has no quota.
    pub fn look_at(&mut self, now: u128)
        ensures
            final(self)@ == old(self)@.looked_at(now),
            final(self).own_clock() == old(self).own_clock(),
    {
        if let Some(until) = self.state.cooldown_until {
            if until > now {
                return;
            }
        }
        if self.max_rpm.is_some() && now >= self.state.window_start && now
            - self.state.window_start >= WINDOW_NANOS {
            self.state.window_start = now;
            self.state.window_requests = 0;
        }
    }

    /// Whether a request for a model (or for any, with `None`) may be sent with the
    /// key at the time `now`. Nothing is counted.
    pub fn may_serve_at(&self, model: Option<&str>, now: u128) -> (yes: bool)
        ensures
            yes == self@.availability_for(opt_str(model), now).1,
    {
        if let Some(model) = model {
            if !self.serves_model(model) {
                return false;
            }
        }
        if let Some(until) = self.state.cooldown_until {
            if until > now {
                return false;
            }
        }
        match self.max_rpm {
            None => true,
            Some(max) => {
                if now >= self.state.window_start && now - self.state.window_start >= WINDOW_NANOS {
                    max > 0
                } else {
                    self.state.window_requests < max
                }
            },
        }
    }

    /// One request for a model asks for the key now.
    pub fn is_available_for_model(&mut self, model: &str) -> (available: bool)
        ensures
            exists|now: u128|
                now <= MAX_NANOS && is_reading(old(self).own_clock(), now) && (
                    final(self)@,
                    available,
                ) == #[trigger] old(self)@.availability_for(Some(model@), now),
            final(self).own_clock() == old(self).own_clock(),
    {
        let now: u128 = self.now();
        self.is_available_for_at(Some(model), now)
    }

    /// Notes that the key was selected at the time `now`.
    pub fn mark_used_at(&mut self, now: u128)
        ensures
            final(self)@ == old(self)@.used(now),
            final(self).own_clock() == old(self).own_clock(),
    {
        self.state.usage_count = self.state.usage_count.wrapping_add(1);
        self.state.last_used = Some(now);
    }

    /// Notes that the key was selected now.
    pub fn mark_used(&mut self)
        ensures
            exists|now: u128|
                now <= MAX_NANOS && is_reading(old(self).own_clock(), now) && final(self)@
                    == #[trigger] old(self)@.used(now),
            final(self).own_clock() == old(self).own_clock(),
    {
        let now: u128 = self.now();
        self.mark_used_at(now)
    }

    /// How often the key was selected.
    pub fn usage_count(&self) -> (count: u64)
        ensures
            count == self@.state.usage_count,
    {
        self.state.usage_count
    }

    /// Notes that a response to a request with the key took `nanos` nanoseconds.
    pub fn note_latency(&mut self, nanos: u64)
        ensures
            final(self)@ == old(self)@.timed(nanos),
            final(self).own_clock() == old(self).own_clock(),
    {
        self.state.latency = Some(nanos);
    }

    /// How long the key's last response took, in nanoseconds; zero before the first.
    pub fn latency(&self) -> (nanos: u64)
        ensures
            nanos == self@.latency(),
    {
        match self.state.latency {
            Some(nanos) => nanos,
            None => 0,
        }
    }

    /// The key failed at the time `now`: it rests for `cooldown` nanoseconds,
    /// stretched by the backoff.
    pub fn set_cooldown_at(&mut self, cooldown: u128, now: u128)
        requires
            cooldown <= MAX_NANOS,
            now <= MAX_NANOS,
        ensures
            final(self)@ == old(self)@.failed(cooldown, now),
            final(self).own_clock() == old(self).own_clock(),
    {
        let factor: u128 = match self.state.backoff {
            0 => 1,
            1 => 5,
            _ => 25,
        };
        assert(cooldown * factor <= MAX_NANOS * 25) by (nonlinear_arith)
            requires
                cooldown <= MAX_NANOS,
                factor <= 25,
        ;
        self.state.cooldown_until = Some(now + cooldown * factor);
        if self.state.backoff < 2 {
            self.state.backoff = self.state.backoff + 1;
        }
    }

    /// The key failed now: it rests for `cooldown` nanoseconds, stretched by the
    /// backoff.
    pub fn set_cooldown(&mut self, cooldown: u128)
        requires
            cooldown <= MAX_NANOS,
        ensures
            exists|now: u128|
                now <= MAX_NANOS && is_reading(old(self).own_clock(), now) && final(self)@
                    == #[trigger] old(self)@.failed(cooldown, now),
            final(self).own_clock() == old(self).own_clock(),
    {
        let now: u128 = self.now();
        self.set_cooldown_at(cooldown, now)
    }

    /// Ends the rest of the key and forgets its backoff.
    pub fn clear_cooldown(&mut self)
        ensures
            final(self)@ == old(self)@.recovered(),
            final(self).own_clock() == old(self).own_clock(),
    {
        self.state.cooldown_until = None;
        self.state.backoff = 0;
    }

    /// How many nanoseconds the key still rests at the time `now`.
    pub fn cooldown_remaining_at(&self, now: u128) -> (left: Option<u128>)
        ensures
            left == self@.rest_left(now),
    {
        match self.state.cooldown_until {
            Some(until) if until > now => Some(until - now),
            _ => None,
        }
    }

    /// How many nanoseconds the key still rests.
    pub fn cooldown_remaining(&self) -> (left: Option<u128>)
        ensures
            exists|now: u128|
                now <= MAX_NANOS && is_reading(self.own_clock(), now) && left
                    == #[trigger] self@.rest_left(now),
    {
        let now: u128 = self.now();
        self.cooldown_remaining_at(now)
    }
}

/// The text of an optional string slice.
pub open spec fn opt_str(text: Option<&str>) -> Option<Seq<char>> {
    match text {
        Some(t) => Some(t@),
        None => None,
    }
}

/// A key as it comes into being.
pub open spec fn new_key(id: Seq<char>, key: Seq<char>, provider: Provider) -> KeyView {
    KeyView {
        id,
        key,
        provider,
        models: Seq::empty(),
        weight: 1,
        base_url: None,
        max_rpm: None,
        state: KeyState {
            usage_count: 0,
            cooldown_until: None,
            last_used: None,
            window_start: 0,
            window_requests: 0,
            backoff: 0,
            latency: None,
        },
    }
}

} // verus!
