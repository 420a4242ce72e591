//! The hot tier as a request sees it: its switch, what it used, and what a
//! collection's status says.

use crate::error;
use crate::error::{Failure, ServiceError};
use crate::json::value;
use crate::json::value::{Json, Tree};
use crate::text;
use vstd::prelude::*;
use vstd::string::*;

verus! {

/// The request header that switches the hot tier.
pub const HOT_HEADER: &'static str = "operon-hot";

/// The response header naming the hot structures that were used.
pub const HOT_USED_HEADER: &'static str = "operon-hot-used";

/// No hot tier: every read takes the durable path.
#[derive(Clone, Copy, Debug)]
pub struct NoHotTier;

impl NoHotTier {
    /// There is no index in memory for a column.
    pub fn has_ann(&self) -> (r: bool)
        ensures
            !r,
    {
        false
    }

    /// Nothing of a collection is hot.
    pub fn status(&self) -> (r: HotStatus)
        ensures
            r == cold_status(),
    {
        HotStatus::default()
    }
}

/// Why a hot structure cannot answer.
#[derive(Debug)]
pub enum HotError {
    Unavailable(String),
    Failed(String),
}

impl HotError {
    /// The message of the error.
    pub fn message(&self) -> (r: String)
        ensures
            r@ == (match self {
                HotError::Unavailable(m) => "hot artifact unavailable: "@ + m@,
                HotError::Failed(m) => "hot artifact failed: "@ + m@,
            }),
    {
        match self {
            HotError::Unavailable(m) => text::cat2("hot artifact unavailable: ", m),
            HotError::Failed(m) => text::cat2("hot artifact failed: ", m),
        }
    }
}

/// A hot structure that a read can use, in the order in which a header
/// names them.
#[derive(Clone, Copy, Debug, PartialEq, Eq, Structural)]
pub enum HotKind {
    Hnsw,
    Splits,
}

/// The name of a hot structure.
pub open spec fn kind_name(k: HotKind) -> Seq<char> {
    match k {
        HotKind::Hnsw => "hnsw"@,
        HotKind::Splits => "splits"@,
    }
}

impl HotKind {
    /// The name, as in the header.
    pub fn name(self) -> (r: &'static str)
        ensures
            r@ == kind_name(self),
    {
        match self {
            HotKind::Hnsw => "hnsw",
            HotKind::Splits => "splits",
        }
    }
}

/// How far a hot structure is.
#[derive(Clone, Copy, Debug, PartialEq, Eq, Structural)]
pub enum HotStateKind {
    Off,
    Building,
    Ready,
}

impl Default for HotStateKind {
    /// Off.
    fn default() -> (r: HotStateKind)
        ensures
            r == HotStateKind::Off,
    {
        HotStateKind::Off
    }
}

/// The state of a hot structure and the manifest that it reflects.
#[derive(Clone, Copy, Debug, PartialEq, Eq, Structural)]
pub struct HotState {
    pub state: HotStateKind,
    pub source_version: Option<u64>,
}

impl Default for HotState {
    /// Off, reflecting nothing.
    fn default() -> (r: HotState)
        ensures
            r == (HotState { state: HotStateKind::Off, source_version: None }),
    {
        HotState { state: HotStateKind::Off, source_version: None }
    }
}

/// What is hot of a collection.
#[derive(Clone, Copy, Debug, PartialEq, Eq, Structural)]
pub struct HotStatus {
    pub vectors: HotState,
    pub text: HotState,
    pub fragments: HotState,
}

/// The status of a collection of which nothing is hot.
pub open spec fn cold_status() -> HotStatus {
    let off = HotState { state: HotStateKind::Off, source_version: None };
    HotStatus { vectors: off, text: off, fragments: off }
}

impl Default for HotStatus {
    /// Nothing is hot.
    fn default() -> (r: HotStatus)
        ensures
            r == cold_status(),
    {
        HotStatus {
            vectors: HotState::default(),
            text: HotState::default(),
            fragments: HotState::default(),
        }
    }
}

/// The hot structures that one request used: one set, which is moved or
/// lent and never copied, so that what a request records is in one place.
#[derive(Debug, PartialEq, Eq, Structural)]
pub struct HotUsed {
    hnsw: bool,
    splits: bool,
}

impl View for HotUsed {
    type V = Set<HotKind>;

    closed spec fn view(&self) -> Set<HotKind> {
        Set::new(
            |k: HotKind|
                match k {
                    HotKind::Hnsw => self.hnsw,
                    HotKind::Splits => self.splits,
                },
        )
    }
}

impl Default for HotUsed {
    /// None was used.
    fn default() -> (r: HotUsed)
        ensures
            r@ == Set::<HotKind>::empty(),
    {
        let r = HotUsed { hnsw: false, splits: false };
        assert(r@ =~= Set::<HotKind>::empty());
        r
    }
}

/// The kinds of a set, in order.
pub open spec fn ordered_kinds(s: Set<HotKind>) -> Seq<HotKind> {
    (if s.contains(HotKind::Hnsw) {
        seq![HotKind::Hnsw]
    } else {
        Seq::empty()
    }) + (if s.contains(HotKind::Splits) {
        seq![HotKind::Splits]
    } else {
        Seq::empty()
    })
}

/// The names of the kinds of a set in order, with commas between them, or
/// `none`.
pub open spec fn used_text(s: Set<HotKind>) -> Seq<char> {
    if s.contains(HotKind::Hnsw) && s.contains(HotKind::Splits) {
        kind_name(HotKind::Hnsw) + ","@ + kind_name(HotKind::Splits)
    } else if s.contains(HotKind::Hnsw) {
        kind_name(HotKind::Hnsw)
    } else if s.contains(HotKind::Splits) {
        kind_name(HotKind::Splits)
    } else {
        "none"@
    }
}

impl HotUsed {
    /// Notes that a structure was used.
    pub fn record(&mut self, kind: HotKind)
        ensures
            final(self)@ == old(self)@.insert(kind),
    {
        match kind {
            HotKind::Hnsw => {
                self.hnsw = true;
            },
            HotKind::Splits => {
                self.splits = true;
            },
        }
        assert(self@ =~= old(self)@.insert(kind));
    }

    /// The structures that were used, in order.
    pub fn kinds(&self) -> (r: Vec<HotKind>)
        ensures
            r@ == ordered_kinds(self@),
    {
        let mut out: Vec<HotKind> = Vec::new();
        if self.hnsw {
            out.push(HotKind::Hnsw);
        }
        if self.splits {
            out.push(HotKind::Splits);
        }
        assert(out@ =~= ordered_kinds(self@));
        out
    }

    /// The names of the structures that were used, or `none`.
    pub fn header_value(&self) -> (r: String)
        ensures
            r@ == used_text(self@),
    {
        let kinds = self.kinds();
        if kinds.len() == 0 {
            return "none".to_owned();
        }
        let first = kinds[0].name();
        if kinds.len() == 1 {
            return first.to_owned();
        }
        text::cat3(first, ",", kinds[1].name())
    }
}

/// The hot switch of one request and what it used.
#[derive(Debug)]
pub struct RequestHot {
    pub enabled: bool,
    pub used: HotUsed,
}

/// The hot scope of the current request: that of the task, lent; none
/// outside one.
pub fn current<'a>(task: Option<&'a RequestHot>) -> (r: Option<&'a RequestHot>)
    ensures
        r == task,
{
    task
}

/// What a hot header says: `on` or `off` in any case.
pub open spec fn header_switch(s: Seq<char>) -> Result<bool, Failure> {
    if text::same_letters(s, "on"@) {
        Ok(true)
    } else if text::same_letters(s, "off"@) {
        Ok(false)
    } else {
        Err(
            Failure::InvalidArgument(
                "invalid Operon-Hot header: "@ + s + " (expected on or off)"@,
            ),
        )
    }
}

/// What a hot header says.
pub fn parse_hot_header(value: &str) -> (r: Result<bool, ServiceError>)
    ensures
        match r {
            Ok(b) => header_switch(value@) == Ok::<bool, Failure>(b),
            Err(e) => header_switch(value@) == Err::<bool, Failure>(e@),
        },
{
    if text::is_word(value, "on") {
        Ok(true)
    } else if text::is_word(value, "off") {
        Ok(false)
    } else {
        Err(
            ServiceError::InvalidArgument(
                text::cat3("invalid Operon-Hot header: ", value, " (expected on or off)"),
            ),
        )
    }
}

/// What a refused header is answered with: the message alone of an invalid
/// argument.
pub open spec fn refusal_text(err: Failure) -> Seq<char> {
    match err {
        Failure::InvalidArgument(m) => m,
        other => error::message_of(other),
    }
}

/// The body that refuses a request with an invalid header.
pub fn bad_header(err: &ServiceError) -> (r: Json)
    ensures
        r@ == Tree::Object(
            seq![
                ("error"@, Tree::Text("invalid_argument"@)),
                ("message"@, Tree::Text(refusal_text(err@))),
            ],
        ),
{
    let message = match err {
        ServiceError::InvalidArgument(m) => m.clone(),
        other => other.message(),
    };
    assert(message@ == refusal_text(err@));
    let mut es: Vec<(String, Json)> = Vec::new();
    es.push(("error".to_owned(), value::string("invalid_argument")));
    es.push(("message".to_owned(), Json::Text(message)));
    let ghost made = es;
    let body = Json::Object(es);
    proof {
        value::view_object(made);
        assert(value::entries_of(made@) =~= seq![
            ("error"@, Tree::Text("invalid_argument"@)),
            ("message"@, Tree::Text(refusal_text(err@))),
        ]);
    }
    body
}

/// Sets each request's hot switch from its header.
#[derive(Clone, Copy, Debug)]
pub struct HotLayer {
    default_enabled: bool,
}

/// A service under a hot layer.
#[derive(Clone, Debug)]
pub struct HotService<S> {
    inner: S,
    default_enabled: bool,
}

impl HotLayer {
    /// The switch of a request without the header.
    pub closed spec fn default_switch(&self) -> bool {
        self.default_enabled
    }

    /// A layer with the switch of requests without the header.
    pub fn new(default_enabled: bool) -> (r: HotLayer)
        ensures
            r.default_switch() == default_enabled,
    {
        HotLayer { default_enabled }
    }

    /// A service under the layer.
    pub fn layer<S>(&self, inner: S) -> (r: HotService<S>)
        ensures
            r.wrapped() == inner,
            r.default_switch() == self.default_switch(),
    {
        HotService { inner, default_enabled: self.default_enabled }
    }
}

impl<S> HotService<S> {
    /// The service inside.
    pub closed spec fn wrapped(&self) -> S {
        self.inner
    }

    /// The switch of a request without the header.
    pub closed spec fn default_switch(&self) -> bool {
        self.default_enabled
    }

    /// The service inside.
    pub fn inner(&self) -> (r: &S)
        ensures
            *r == self.wrapped(),
    {
        &self.inner
    }

    /// The hot scope that a request with this header begins with.
    pub fn begin(&self, header: Option<&str>) -> (r: Result<RequestHot, ServiceError>)
        ensures
            match r {
                Ok(hot) => hot.used@ == Set::<HotKind>::empty() && match header {
                    None => hot.enabled == self.default_switch(),
                    Some(h) => header_switch(h@) == Ok::<bool, Failure>(hot.enabled),
                },
                Err(e) => header matches Some(h) && header_switch(h@) == Err::<bool, Failure>(e@),
            },
    {
        let enabled = match header {
            None => self.default_enabled,
            Some(h) => match parse_hot_header(h) {
                Ok(b) => b,
                Err(e) => {
                    return Err(e);
                },
            },
        };
        Ok(RequestHot { enabled, used: HotUsed::default() })
    }

    /// The header to report at the end: none where the answer has one.
    pub fn report(&self, has_header: bool, used: &HotUsed) -> (r: Option<String>)
        ensures
            text::opt_text(r) == (if has_header {
                None
            } else {
                Some(used_text(used@))
            }),
    {
        if has_header {
            None
        } else {
            Some(used.header_value())
        }
    }
}

} // verus!
