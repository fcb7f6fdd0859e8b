//! What a language server asks to have watched: the file watchers in a
//! `client/registerCapability` request.

use crate::globs::{
    accepted_everywhere, compile_glob, default_style, glob_accepted, globs_in, may_be_refused,
    short_pattern, simple_pattern, simple_patterns_are_unbracketed, single_glob, unbracketed,
    GlobFailure, GlobStyle, GlobView,
};
use crate::json::{is_text, json_of, member, Json, JsonNumber};
use crate::uri::{file_uri_to_path, path_of_uri, paths_stand_behind_the_scheme};
use globset::GlobSet;
use serde_json::Value;
use vstd::prelude::*;
use vstd::string::*;

verus! {

/// One file watcher that a server asks for: the directory its pattern is
/// relative to, where it names one, the pattern, and the mask of the kinds of
/// change.
#[verifier::ext_equal]
pub struct RequestView {
    pub base: Option<Seq<char>>,
    pub pattern: Seq<char>,
    pub kind_mask: u32,
}

/// The kinds of change that a watcher asks for; all of them where it does not
/// say.
pub open spec fn kind_mask_of(kind: Json) -> u32 {
    match kind.unsigned() {
        Some(mask) => mask as u32,
        None => 7,
    }
}

/// The base directory of a relative pattern. It is given by its URI, or by a
/// workspace folder that holds the URI.
pub open spec fn base_of(base: Json) -> Option<Seq<char>> {
    let uri = match base.text() {
        Some(uri) => Some(uri),
        None => base.at("uri"@).text(),
    };
    match uri {
        Some(uri) => path_of_uri(uri),
        None => None,
    }
}

/// The watcher that an entry asks for. Its pattern is a text, or an object
/// with a base and a text; an entry with neither asks for nothing.
pub open spec fn entry_request(entry: Json) -> Option<RequestView> {
    let glob = entry.at("globPattern"@);
    let kind_mask = kind_mask_of(entry.at("kind"@));
    match glob.text() {
        Some(pattern) => Some(RequestView { base: None, pattern, kind_mask }),
        None => match glob.at("pattern"@).text() {
            Some(pattern) => Some(
                RequestView { base: base_of(glob.at("baseUri"@)), pattern, kind_mask },
            ),
            None => None,
        },
    }
}

/// The watchers that the entries of a registration ask for, in order.
pub open spec fn entry_requests(entries: Seq<Json>) -> Seq<RequestView>
    decreases entries.len(),
{
    if entries.len() == 0 {
        Seq::empty()
    } else {
        let before = entry_requests(entries.drop_last());
        match entry_request(entries.last()) {
            Some(request) => before.push(request),
            None => before,
        }
    }
}

/// The watchers that a registration asks for. Only registrations for file
/// watching ask for any.
pub open spec fn registration_requests(registration: Json) -> Seq<RequestView> {
    if registration.at("method"@) == Json::Text("workspace/didChangeWatchedFiles"@) {
        match registration.at("registerOptions"@).at("watchers"@).items() {
            Some(entries) => entry_requests(entries),
            None => Seq::empty(),
        }
    } else {
        Seq::empty()
    }
}

/// The watchers that several registrations ask for, in order.
pub open spec fn registrations_requests(registrations: Seq<Json>) -> Seq<RequestView>
    decreases registrations.len(),
{
    if registrations.len() == 0 {
        Seq::empty()
    } else {
        registrations_requests(registrations.drop_last()) + registration_requests(
            registrations.last(),
        )
    }
}

/// The watchers that a request message asks for.
pub open spec fn requests_in(message: Json) -> Seq<RequestView> {
    match message.at("params"@).at("registrations"@).items() {
        Some(registrations) => registrations_requests(registrations),
        None => Seq::empty(),
    }
}

/// One file watcher that a server asks for.
pub struct WatchRequest {
    pub base_path: Option<String>,
    pub pattern: String,
    pub kind_mask: u32,
}

/// The content of an optional text.
pub open spec fn optional_text(text: Option<String>) -> Option<Seq<char>> {
    match text {
        Some(text) => Some(text@),
        None => None,
    }
}

impl View for WatchRequest {
    type V = RequestView;

    open spec fn view(&self) -> RequestView {
        RequestView {
            base: optional_text(self.base_path),
            pattern: self.pattern@,
            kind_mask: self.kind_mask,
        }
    }
}

/// The requests in a list.
pub open spec fn request_views(requests: Seq<WatchRequest>) -> Seq<RequestView> {
    requests.map_values(|request: WatchRequest| request@)
}

/// The base directory of a relative pattern.
fn base_path_of(base: &Value) -> (path: Option<String>)
    ensures
        optional_text(path) == base_of(json_of(*base)),
{
    match base.as_str() {
        Some(uri) => file_uri_to_path(uri),
        None => match member(base, "uri").as_str() {
            Some(uri) => file_uri_to_path(uri),
            None => None,
        },
    }
}

/// The watcher that an entry asks for.
fn read_entry(entry: &Value) -> (request: Option<WatchRequest>)
    ensures
        match request {
            Some(request) => entry_request(json_of(*entry)) == Some(request@),
            None => entry_request(json_of(*entry)) is None,
        },
{
    let kind_mask: u32 = match member(entry, "kind").as_u64() {
        Some(mask) => #[verifier::truncate] (mask as u32),
        None => 7,
    };
    let glob: &Value = member(entry, "globPattern");
    match glob.as_str() {
        Some(pattern) => Some(
            WatchRequest { base_path: None, pattern: pattern.to_owned(), kind_mask },
        ),
        None => match member(glob, "pattern").as_str() {
            Some(pattern) => Some(
                WatchRequest {
                    base_path: base_path_of(member(glob, "baseUri")),
                    pattern: pattern.to_owned(),
                    kind_mask,
                },
            ),
            None => None,
        },
    }
}

/// Appends the watchers that a registration asks for.
fn read_registration(registration: &Value, requests: &mut Vec<WatchRequest>)
    ensures
        request_views(final(requests)@) == request_views(old(requests)@) + registration_requests(
            json_of(*registration),
        ),
{
    let ghost start = request_views(requests@);
    if !is_text(member(registration, "method"), "workspace/didChangeWatchedFiles") {
        return;
    }
    let options: &Value = member(registration, "registerOptions");
    let entries: &Vec<Value> = match member(options, "watchers").as_array() {
        Some(entries) => entries,
        None => {
            return;
        },
    };
    let ghost documents = entries@.map_values(|item: Value| json_of(item));
    let mut i: usize = 0;
    while i < entries.len()
        invariant
            i <= entries@.len(),
            documents == entries@.map_values(|item: Value| json_of(item)),
            request_views(requests@) == start + entry_requests(documents.take(i as int)),
        decreases entries@.len() - i,
    {
        assert(documents.take(i + 1).drop_last() == documents.take(i as int));
        assert(documents.take(i + 1).last() == json_of(entries@[i as int]));
        match read_entry(&entries[i]) {
            Some(request) => {
                let ghost before = requests@;
                requests.push(request);
                assert(request_views(requests@) == request_views(before).push(request@));
            },
            None => {},
        }
        i += 1;
    }
    assert(documents.take(i as int) == documents);
}

/// The watchers that a request message asks for.
pub fn watch_requests(message: &Value) -> (requests: Vec<WatchRequest>)
    ensures
        request_views(requests@) == requests_in(json_of(*message)),
{
    let mut requests: Vec<WatchRequest> = Vec::new();
    let params: &Value = member(message, "params");
    let registrations: &Vec<Value> = match member(params, "registrations").as_array() {
        Some(registrations) => registrations,
        None => {
            return requests;
        },
    };
    let ghost documents = registrations@.map_values(|item: Value| json_of(item));
    let mut i: usize = 0;
    while i < registrations.len()
        invariant
            i <= registrations@.len(),
            documents == registrations@.map_values(|item: Value| json_of(item)),
            request_views(requests@) == registrations_requests(documents.take(i as int)),
        decreases registrations@.len() - i,
    {
        assert(documents.take(i + 1).drop_last() == documents.take(i as int));
        assert(documents.take(i + 1).last() == json_of(registrations@[i as int]));
        read_registration(&registrations[i], &mut requests);
        i += 1;
    }
    assert(documents.take(i as int) == documents);
    requests
}

/// A watched pattern: the directory it is relative to, where it has one, the
/// glob, and the mask of the kinds of change.
#[verifier::ext_equal]
pub struct PatternView {
    pub base: Option<Seq<char>>,
    pub glob: GlobView,
    pub kind_mask: u32,
}

/// A watched pattern.
pub struct WatchedPattern {
    base_path: Option<String>,
    glob_set: GlobSet,
    kind_mask: u32,
}

impl WatchedPattern {
    #[verifier::type_invariant]
    spec fn holds_one_glob(self) -> bool {
        single_glob(self.glob_set)
    }

    /// The text of the base directory.
    pub fn base_path(&self) -> (base: Option<&String>)
        ensures
            match base {
                Some(base) => self@.base == Some(base@),
                None => self@.base is None,
            },
    {
        self.base_path.as_ref()
    }

    /// The mask of the kinds of change.
    pub fn kind_mask(&self) -> (mask: u32)
        ensures
            mask == self@.kind_mask,
    {
        self.kind_mask
    }

    /// Whether the glob matches a path.
    pub fn glob_matches(&self, path: &[u8]) -> (yes: bool)
        ensures
            default_style(self@.glob.style),
            yes == crate::globs::glob_matches(self@.glob.pattern, self@.glob.style, path@),
    {
        proof {
            use_type_invariant(self);
        }
        crate::globs::single_glob_matches(&self.glob_set, path)
    }
}

impl View for WatchedPattern {
    type V = PatternView;

    closed spec fn view(&self) -> PatternView {
        PatternView {
            base: optional_text(self.base_path),
            glob: globs_in(self.glob_set)[0],
            kind_mask: self.kind_mask,
        }
    }
}

/// The patterns in a list.
pub open spec fn pattern_views(patterns: Seq<WatchedPattern>) -> Seq<PatternView> {
    patterns.map_values(|pattern: WatchedPattern| pattern@)
}

/// The pattern that comes of a request when its pattern compiles to a glob.
pub open spec fn pattern_of(request: RequestView, glob: GlobView) -> PatternView {
    PatternView { base: request.base, glob, kind_mask: request.kind_mask }
}

/// What came of compiling a pattern: a glob, or a refusal.
pub type Compiled = Result<GlobView, GlobFailure>;

/// The patterns that come of requests, where `compiled` holds what came of
/// compiling the pattern of each. Those that were refused are left out.
pub open spec fn patterns_of(requests: Seq<RequestView>, compiled: Seq<Compiled>) -> Seq<
    PatternView,
>
    decreases requests.len(),
{
    if requests.len() == 0 {
        Seq::empty()
    } else {
        let before = patterns_of(requests.drop_last(), compiled.drop_last());
        match compiled.last() {
            Ok(glob) => before.push(pattern_of(requests.last(), glob)),
            Err(_) => before,
        }
    }
}

/// A pattern that is not watched, and why.
#[verifier::ext_equal]
pub struct RefusedView {
    pub pattern: Seq<char>,
    pub failure: GlobFailure,
}

/// The patterns of requests that were refused.
pub open spec fn refused_of(requests: Seq<RequestView>, compiled: Seq<Compiled>) -> Seq<RefusedView>
    decreases requests.len(),
{
    if requests.len() == 0 {
        Seq::empty()
    } else {
        let before = refused_of(requests.drop_last(), compiled.drop_last());
        match compiled.last() {
            Ok(_) => before,
            Err(failure) => before.push(
                RefusedView { pattern: requests.last().pattern, failure },
            ),
        }
    }
}

/// Whether this can come of compiling a pattern: a glob of the pattern, which a
/// platform accepts, or a refusal for which there is reason.
pub open spec fn compiles_to(pattern: Seq<char>, compiled: Compiled) -> bool {
    match compiled {
        Ok(glob) => glob.pattern == pattern && default_style(glob.style) && glob_accepted(
            glob.pattern,
            glob.style,
        ),
        Err(failure) => may_be_refused(pattern, failure.refusal),
    }
}

/// Whether `compiled` can come of compiling the patterns of the requests.
pub open spec fn compiled_from(compiled: Seq<Compiled>, requests: Seq<RequestView>) -> bool {
    &&& compiled.len() == requests.len()
    &&& forall|i: int|
        0 <= i < requests.len() ==> compiles_to((#[trigger] requests[i]).pattern, compiled[i])
}

/// What came of compiling a pattern to a set of one glob.
pub open spec fn compiled_glob(compiled: Result<GlobSet, GlobFailure>) -> Compiled {
    match compiled {
        Ok(set) => Ok(globs_in(set)[0]),
        Err(failure) => Err(failure),
    }
}

/// A pattern that is not watched, and why.
pub struct RefusedPattern {
    pub pattern: String,
    pub failure: GlobFailure,
}

impl View for RefusedPattern {
    type V = RefusedView;

    open spec fn view(&self) -> RefusedView {
        RefusedView { pattern: self.pattern@, failure: self.failure }
    }
}

/// The refused patterns in a list.
pub open spec fn refused_views(refused: Seq<RefusedPattern>) -> Seq<RefusedView> {
    refused.map_values(|pattern: RefusedPattern| pattern@)
}

/// The pattern that comes of a request, given what its pattern compiled to.
pub fn watched_pattern(
    request: WatchRequest,
    compiled: Result<GlobSet, GlobFailure>,
) -> (pattern: Result<WatchedPattern, RefusedPattern>)
    requires
        compiled matches Ok(set) ==> single_glob(set),
    ensures
        match pattern {
            Ok(pattern) => compiled is Ok && pattern@ == pattern_of(
                request@,
                globs_in(compiled->Ok_0)[0],
            ),
            Err(refused) => compiled == Err::<GlobSet, GlobFailure>(refused.failure)
                && refused.pattern@ == request@.pattern,
        },
{
    match compiled {
        Ok(glob_set) => Ok(
            WatchedPattern {
                base_path: request.base_path,
                glob_set,
                kind_mask: request.kind_mask,
            },
        ),
        Err(failure) => Err(RefusedPattern { pattern: request.pattern, failure }),
    }
}

/// The patterns that a request message asks to have watched, sorted into those
/// that are watched and those that are refused.
pub struct Extracted {
    pub patterns: Vec<WatchedPattern>,
    pub refused: Vec<RefusedPattern>,
}

/// Whether patterns and refused patterns are those that come of requests.
pub open spec fn come_of(
    patterns: Seq<WatchedPattern>,
    refused: Seq<RefusedPattern>,
    requests: Seq<RequestView>,
) -> bool {
    exists|compiled: Seq<Compiled>| #[trigger]
        compiled_from(compiled, requests) && pattern_views(patterns) == patterns_of(
            requests,
            compiled,
        ) && refused_views(refused) == refused_of(requests, compiled)
}

/// The patterns that a request message asks to have watched, and those among
/// them that are refused.
pub fn sort_patterns(message: &Value) -> (extracted: Extracted)
    ensures
        come_of(extracted.patterns@, extracted.refused@, requests_in(json_of(*message))),
{
    let mut patterns: Vec<WatchedPattern> = Vec::new();
    let mut refused: Vec<RefusedPattern> = Vec::new();
    let requests: Vec<WatchRequest> = watch_requests(message);
    let ghost views = request_views(requests@);
    let ghost mut compiled: Seq<Compiled> = Seq::empty();
    for request in it: requests
        invariant
            views == request_views(requests@),
            it.seq() == requests@,
            compiled_from(compiled, views.take(it.index() as int)),
            pattern_views(patterns@) == patterns_of(views.take(it.index() as int), compiled),
            refused_views(refused@) == refused_of(views.take(it.index() as int), compiled),
    {
        let ghost i = it.index() as int;
        assert(views.take(i + 1).drop_last() == views.take(i));
        assert(views.take(i + 1).last() == request@);
        let set: Result<GlobSet, GlobFailure> = compile_glob(request.pattern.as_str());
        let ghost before = compiled;
        proof {
            compiled = compiled.push(compiled_glob(set));
            assert(compiled.drop_last() == before);
            assert forall|j: int| 0 <= j < i + 1 implies compiles_to(
                (#[trigger] views.take(i + 1)[j]).pattern,
                compiled[j],
            ) by {
                if j < i {
                    assert(views.take(i)[j] == views.take(i + 1)[j]);
                }
            }
        }
        match watched_pattern(request, set) {
            Ok(pattern) => {
                let ghost so_far = patterns@;
                patterns.push(pattern);
                assert(pattern_views(patterns@) == pattern_views(so_far).push(pattern@));
            },
            Err(pattern) => {
                let ghost so_far = refused@;
                refused.push(pattern);
                assert(refused_views(refused@) == refused_views(so_far).push(pattern@));
            },
        }
    }
    assert(views.take(views.len() as int) == views);
    Extracted { patterns, refused }
}

/// The patterns that a request message asks to have watched, without those
/// that are refused.
pub fn extract_patterns(message: &Value) -> (patterns: Vec<WatchedPattern>)
    ensures
        exists|compiled: Seq<Compiled>| #[trigger]
            compiled_from(compiled, requests_in(json_of(*message))) && pattern_views(patterns@)
                == patterns_of(requests_in(json_of(*message)), compiled),
{
    sort_patterns(message).patterns
}

/// Registrations are read one by one: those of two lists ask for what the
/// first list asks for and then what the second asks for.
pub proof fn registrations_add_up(first: Seq<Json>, second: Seq<Json>)
    ensures
        registrations_requests(first + second) == registrations_requests(first)
            + registrations_requests(second),
    decreases second.len(),
{
    if second.len() == 0 {
        assert(first + second == first);
    } else {
        assert((first + second).drop_last() == first + second.drop_last());
        registrations_add_up(first, second.drop_last());
    }
}

proof fn lemma_compiled_from_prefix(compiled: Seq<Compiled>, requests: Seq<RequestView>)
    requires
        compiled_from(compiled, requests),
        requests.len() > 0,
    ensures
        compiled_from(compiled.drop_last(), requests.drop_last()),
{
    let fewer = requests.drop_last();
    assert forall|j: int| 0 <= j < fewer.len() implies compiles_to(
        (#[trigger] fewer[j]).pattern,
        compiled.drop_last()[j],
    ) by {
        assert(fewer[j] == requests[j]);
    }
}

/// What is watched was asked for: each pattern that comes of requests is that
/// of one of the requests, with its base and its kinds of change.
pub proof fn patterns_were_asked_for(
    requests: Seq<RequestView>,
    compiled: Seq<Compiled>,
    i: int,
)
    requires
        compiled_from(compiled, requests),
        0 <= i < patterns_of(requests, compiled).len(),
    ensures
        exists|j: int|
            0 <= j < requests.len() && (#[trigger] requests[j]).pattern == patterns_of(
                requests,
                compiled,
            )[i].glob.pattern && requests[j].base == patterns_of(requests, compiled)[i].base
                && requests[j].kind_mask == patterns_of(requests, compiled)[i].kind_mask,
    decreases requests.len(),
{
    let n = requests.len() - 1;
    let fewer = requests.drop_last();
    let before = patterns_of(fewer, compiled.drop_last());
    assert(compiles_to(requests[n].pattern, compiled[n]));
    if i < before.len() {
        lemma_compiled_from_prefix(compiled, requests);
        patterns_were_asked_for(fewer, compiled.drop_last(), i);
        let j = choose|j: int|
            0 <= j < fewer.len() && (#[trigger] fewer[j]).pattern == before[i].glob.pattern
                && fewer[j].base == before[i].base && fewer[j].kind_mask == before[i].kind_mask;
        assert(requests[j] == fewer[j]);
    }
}

/// No request is lost: for each there is a pattern or a refused pattern.
pub proof fn requests_are_watched_or_refused(requests: Seq<RequestView>, compiled: Seq<Compiled>)
    requires
        compiled_from(compiled, requests),
    ensures
        patterns_of(requests, compiled).len() + refused_of(requests, compiled).len()
            == requests.len(),
    decreases requests.len(),
{
    if requests.len() > 0 {
        lemma_compiled_from_prefix(compiled, requests);
        requests_are_watched_or_refused(requests.drop_last(), compiled.drop_last());
    }
}

/// Whether a pattern compiles on every platform: it has no brackets or the
/// defaults of every platform accept it, and it is simple or short.
pub open spec fn sure_to_compile(pattern: Seq<char>) -> bool {
    &&& unbracketed(pattern) || accepted_everywhere(pattern)
    &&& simple_pattern(pattern) || short_pattern(pattern)
}

/// Every simple pattern compiles.
pub proof fn simple_patterns_compile(pattern: Seq<char>)
    requires
        simple_pattern(pattern),
    ensures
        sure_to_compile(pattern),
{
    simple_patterns_are_unbracketed(pattern);
}

/// What comes of requests adds up: of two lists come the patterns of the first
/// and then those of the second.
pub proof fn patterns_add_up(
    requests: Seq<RequestView>,
    more_requests: Seq<RequestView>,
    compiled: Seq<Compiled>,
    more_compiled: Seq<Compiled>,
)
    requires
        requests.len() == compiled.len(),
        more_requests.len() == more_compiled.len(),
    ensures
        patterns_of(requests + more_requests, compiled + more_compiled) == patterns_of(
            requests,
            compiled,
        ) + patterns_of(more_requests, more_compiled),
        refused_of(requests + more_requests, compiled + more_compiled) == refused_of(
            requests,
            compiled,
        ) + refused_of(more_requests, more_compiled),
    decreases more_requests.len(),
{
    let all = requests + more_requests;
    let all_compiled = compiled + more_compiled;
    if more_requests.len() == 0 {
        assert(all == requests);
        assert(all_compiled == compiled);
    } else {
        assert(all.drop_last() == requests + more_requests.drop_last());
        assert(all_compiled.drop_last() == compiled + more_compiled.drop_last());
        assert(all.last() == more_requests.last());
        assert(all_compiled.last() == more_compiled.last());
        patterns_add_up(
            requests,
            more_requests.drop_last(),
            compiled,
            more_compiled.drop_last(),
        );
    }
}

/// The patterns of two lists of registrations add up: what comes of both lists
/// together is what can come of the first and then what can come of the second.
pub proof fn registered_patterns_add_up(
    first: Seq<Json>,
    second: Seq<Json>,
    compiled: Seq<Compiled>,
)
    requires
        compiled_from(compiled, registrations_requests(first + second)),
    ensures
        ({
            let n = registrations_requests(first).len() as int;
            &&& n <= compiled.len()
            &&& compiled_from(compiled.take(n), registrations_requests(first))
            &&& compiled_from(compiled.skip(n), registrations_requests(second))
            &&& patterns_of(registrations_requests(first + second), compiled) == patterns_of(
                registrations_requests(first),
                compiled.take(n),
            ) + patterns_of(registrations_requests(second), compiled.skip(n))
        }),
{
    registrations_add_up(first, second);
    let a = registrations_requests(first);
    let b = registrations_requests(second);
    let n = a.len() as int;
    assert forall|i: int| 0 <= i < a.len() implies compiles_to(
        (#[trigger] a[i]).pattern,
        compiled.take(n)[i],
    ) by {
        assert((a + b)[i] == a[i]);
    }
    assert forall|i: int| 0 <= i < b.len() implies compiles_to(
        (#[trigger] b[i]).pattern,
        compiled.skip(n)[i],
    ) by {
        assert((a + b)[n + i] == b[i]);
    }
    assert(compiled.take(n) + compiled.skip(n) == compiled);
    patterns_add_up(a, b, compiled.take(n), compiled.skip(n));
}

/// What can come of two lists of registrations, one after the other, can come
/// of both together.
pub proof fn separate_patterns_add_up(
    first: Seq<Json>,
    second: Seq<Json>,
    compiled: Seq<Compiled>,
    more_compiled: Seq<Compiled>,
)
    requires
        compiled_from(compiled, registrations_requests(first)),
        compiled_from(more_compiled, registrations_requests(second)),
    ensures
        compiled_from(compiled + more_compiled, registrations_requests(first + second)),
        patterns_of(registrations_requests(first + second), compiled + more_compiled)
            == patterns_of(registrations_requests(first), compiled) + patterns_of(
            registrations_requests(second),
            more_compiled,
        ),
{
    registrations_add_up(first, second);
    let a = registrations_requests(first);
    let b = registrations_requests(second);
    assert forall|i: int| 0 <= i < (a + b).len() implies compiles_to(
        (#[trigger] (a + b)[i]).pattern,
        (compiled + more_compiled)[i],
    ) by {
        if i < a.len() {
            assert((a + b)[i] == a[i]);
        } else {
            assert((a + b)[i] == b[i - a.len()]);
        }
    }
    patterns_add_up(a, b, compiled, more_compiled);
}

/// Where every pattern that is asked for is sure to compile, each request gives
/// one pattern, in order: none is missing, and none comes from elsewhere.
pub proof fn sure_requests_are_all_watched(requests: Seq<RequestView>, compiled: Seq<Compiled>)
    requires
        compiled_from(compiled, requests),
        forall|i: int|
            0 <= i < requests.len() ==> sure_to_compile((#[trigger] requests[i]).pattern),
    ensures
        patterns_of(requests, compiled).len() == requests.len(),
        forall|i: int|
            0 <= i < requests.len() ==> {
                let pattern = #[trigger] patterns_of(requests, compiled)[i];
                pattern.glob.pattern == requests[i].pattern && pattern.base == requests[i].base
                    && pattern.kind_mask == requests[i].kind_mask
            },
    decreases requests.len(),
{
    if requests.len() > 0 {
        let n = requests.len() - 1;
        let fewer = requests.drop_last();
        assert forall|i: int| 0 <= i < fewer.len() implies sure_to_compile(
            (#[trigger] fewer[i]).pattern,
        ) by {
            assert(fewer[i] == requests[i]);
        }
        assert(compiles_to(requests[n].pattern, compiled[n]));
        lemma_compiled_from_prefix(compiled, requests);
        sure_requests_are_all_watched(fewer, compiled.drop_last());
        let before = patterns_of(fewer, compiled.drop_last());
        let all = patterns_of(requests, compiled);
        assert forall|i: int| 0 <= i < requests.len() implies {
            let pattern = #[trigger] all[i];
            pattern.glob.pattern == requests[i].pattern && pattern.base == requests[i].base
                && pattern.kind_mask == requests[i].kind_mask
        } by {
            if i < n {
                assert(all[i] == before[i]);
            }
        }
    }
}

/// What is asked for by a pattern that is sure to compile is watched, whatever
/// becomes of the others.
pub proof fn sure_requests_are_watched(
    requests: Seq<RequestView>,
    compiled: Seq<Compiled>,
    i: int,
)
    requires
        compiled_from(compiled, requests),
        0 <= i < requests.len(),
        sure_to_compile(requests[i].pattern),
    ensures
        exists|j: int|
            0 <= j < patterns_of(requests, compiled).len() && (#[trigger] patterns_of(
                requests,
                compiled,
            )[j]).glob.pattern == requests[i].pattern && patterns_of(requests, compiled)[j].base
                == requests[i].base && patterns_of(requests, compiled)[j].kind_mask
                == requests[i].kind_mask,
    decreases requests.len(),
{
    let n = requests.len() - 1;
    let fewer = requests.drop_last();
    let before = patterns_of(fewer, compiled.drop_last());
    let all = patterns_of(requests, compiled);
    assert(compiles_to(requests[i].pattern, compiled[i]));
    if i < n {
        lemma_compiled_from_prefix(compiled, requests);
        assert(fewer[i] == requests[i]);
        sure_requests_are_watched(fewer, compiled.drop_last(), i);
        let j = choose|j: int|
            0 <= j < before.len() && (#[trigger] before[j]).glob.pattern == requests[i].pattern
                && before[j].base == requests[i].base && before[j].kind_mask
                == requests[i].kind_mask;
        assert(all[j] == before[j]);
    } else {
        assert(all[before.len() as int] == pattern_of(requests[n], compiled[n]->Ok_0));
    }
}

/// The mask of a watcher is the number that it gives for its kinds, as far as
/// that fits in 32 bits. A watcher that gives no such number gets all kinds.
pub proof fn masks_are_the_numbers_given(kind: Json, n: u64)
    ensures
        kind == Json::Number(JsonNumber::PosInt(n)) ==> kind_mask_of(kind) as int == n as int
            % 0x1_0000_0000,
        !(kind matches Json::Number(JsonNumber::PosInt(_))) ==> kind_mask_of(kind) == 7,
{
    assert(n as u32 as u64 == n % 0x1_0000_0000) by (bit_vector);
}

/// A watcher whose pattern is a text asks for that pattern, relative to nothing,
/// with the mask of its kinds.
pub proof fn text_patterns_have_no_base(entry: Json, pattern: Seq<char>, n: u64)
    requires
        entry.at("globPattern"@) == Json::Text(pattern),
    ensures
        entry_request(entry) is Some,
        entry_request(entry)->Some_0.pattern == pattern,
        entry_request(entry)->Some_0.base is None,
        entry.at("kind"@) == Json::Number(JsonNumber::PosInt(n)) ==> entry_request(
            entry,
        )->Some_0.kind_mask as int == n as int % 0x1_0000_0000,
        !(entry.at("kind"@) matches Json::Number(JsonNumber::PosInt(_))) ==> entry_request(
            entry,
        )->Some_0.kind_mask == 7,
{
    masks_are_the_numbers_given(entry.at("kind"@), n);
}

/// A watcher with a relative pattern asks for that pattern, relative to the
/// directory that its base names, with the mask of its kinds. The base is the
/// path behind `file://`, whether the URI stands alone or in a workspace folder;
/// the slash before a drive letter is left out.
pub proof fn relative_patterns_have_their_base(
    entry: Json,
    pattern: Seq<char>,
    path: Seq<char>,
    n: u64,
)
    requires
        entry.at("globPattern"@).at("pattern"@) == Json::Text(pattern),
        entry.at("globPattern"@).at("baseUri"@) == Json::Text("file://"@ + path) || entry.at(
            "globPattern"@,
        ).at("baseUri"@).at("uri"@) == Json::Text("file://"@ + path),
    ensures
        entry_request(entry) is Some,
        entry_request(entry)->Some_0.pattern == pattern,
        entry_request(entry)->Some_0.base == Some(
            if path.len() > 2 && path[0] == '/' && path[2] == ':' {
                path.skip(1)
            } else {
                path
            },
        ),
        entry.at("kind"@) == Json::Number(JsonNumber::PosInt(n)) ==> entry_request(
            entry,
        )->Some_0.kind_mask as int == n as int % 0x1_0000_0000,
        !(entry.at("kind"@) matches Json::Number(JsonNumber::PosInt(_))) ==> entry_request(
            entry,
        )->Some_0.kind_mask == 7,
{
    masks_are_the_numbers_given(entry.at("kind"@), n);
    paths_stand_behind_the_scheme(path);
}

/// A watcher with a relative pattern whose base is no `file:` URI, or that has
/// no base, asks for the pattern relative to nothing.
pub proof fn bases_that_are_no_files_are_dropped(entry: Json, pattern: Seq<char>, uri: Seq<char>)
    requires
        entry.at("globPattern"@).at("pattern"@) == Json::Text(pattern),
        ({
            let base = entry.at("globPattern"@).at("baseUri"@);
            ||| base == Json::Text(uri) && !"file://"@.is_prefix_of(uri)
            ||| base.at("uri"@) == Json::Text(uri) && !"file://"@.is_prefix_of(uri)
            ||| !(base is Text) && !(base.at("uri"@) is Text)
        }),
    ensures
        entry_request(entry) is Some,
        entry_request(entry)->Some_0.pattern == pattern,
        entry_request(entry)->Some_0.base is None,
{
    paths_stand_behind_the_scheme(uri);
}

/// A watcher without a text for its pattern asks for nothing.
pub proof fn watchers_need_a_pattern(entry: Json)
    requires
        !(entry.at("globPattern"@) is Text),
        !(entry.at("globPattern"@).at("pattern"@) is Text),
    ensures
        entry_request(entry) is None,
{
}

/// The watchers of a registration are read one by one: those of two lists ask
/// for what the first list asks for and then what the second asks for.
pub proof fn entries_add_up(first: Seq<Json>, second: Seq<Json>)
    ensures
        entry_requests(first + second) == entry_requests(first) + entry_requests(second),
    decreases second.len(),
{
    if second.len() == 0 {
        assert(first + second == first);
    } else {
        assert((first + second).drop_last() == first + second.drop_last());
        entries_add_up(first, second.drop_last());
    }
}

/// A single watcher asks for what it asks for, once, or for nothing.
pub proof fn one_entry_asks_once(entry: Json)
    ensures
        entry_request(entry) matches Some(request) ==> entry_requests(seq![entry]) == seq![request],
        entry_request(entry) is None ==> entry_requests(seq![entry]).len() == 0,
{
    assert(seq![entry].drop_last() == Seq::<Json>::empty());
    assert(entry_requests(Seq::<Json>::empty()) == Seq::<RequestView>::empty());
}

/// A registration for file watching asks for what the watchers in its options
/// ask for, and any other registration for nothing.
pub proof fn registrations_ask_for_their_watchers(registration: Json, entries: Seq<Json>)
    ensures
        registration.at("method"@) == Json::Text("workspace/didChangeWatchedFiles"@)
            && registration.at("registerOptions"@).at("watchers"@) == Json::Array(entries)
            ==> registrations_requests(seq![registration]) == entry_requests(entries),
        registration.at("method"@) != Json::Text("workspace/didChangeWatchedFiles"@)
            ==> registrations_requests(seq![registration]).len() == 0,
        !(registration.at("registerOptions"@).at("watchers"@) is Array) ==> registrations_requests(
            seq![registration],
        ).len() == 0,
{
    assert(seq![registration].drop_last() == Seq::<Json>::empty());
    assert(registrations_requests(Seq::<Json>::empty()) == Seq::<RequestView>::empty());
    assert(Seq::<RequestView>::empty() + registration_requests(registration)
        == registration_requests(registration));
}

/// A message asks for what the registrations in its parameters ask for.
pub proof fn messages_ask_for_their_registrations(message: Json, registrations: Seq<Json>)
    ensures
        message.at("params"@).at("registrations"@) == Json::Array(registrations) ==> requests_in(
            message,
        ) == registrations_requests(registrations),
        !(message.at("params"@).at("registrations"@) is Array) ==> requests_in(message).len() == 0,
{
}

/// No watcher is passed over: each that a registration for file watching holds,
/// and that asks for something, is among the requests of the message.
pub proof fn every_watcher_is_requested(
    message: Json,
    registrations: Seq<Json>,
    entries: Seq<Json>,
    i: int,
    j: int,
)
    requires
        message.at("params"@).at("registrations"@) == Json::Array(registrations),
        0 <= i < registrations.len(),
        registrations[i].at("method"@) == Json::Text("workspace/didChangeWatchedFiles"@),
        registrations[i].at("registerOptions"@).at("watchers"@) == Json::Array(entries),
        0 <= j < entries.len(),
        entry_request(entries[j]) is Some,
    ensures
        requests_in(message).contains(entry_request(entries[j])->Some_0),
{
    let request = entry_request(entries[j])->Some_0;
    let before = entries.take(j);
    let after = entries.skip(j + 1);
    assert(entries == before + (seq![entries[j]] + after));
    entries_add_up(before, seq![entries[j]] + after);
    entries_add_up(seq![entries[j]], after);
    one_entry_asks_once(entries[j]);
    let k = entry_requests(before).len() as int;
    assert(entry_requests(entries)[k] == request);
    let earlier = registrations.take(i);
    let later = registrations.skip(i + 1);
    assert(registrations == earlier + (seq![registrations[i]] + later));
    registrations_add_up(earlier, seq![registrations[i]] + later);
    registrations_add_up(seq![registrations[i]], later);
    registrations_ask_for_their_watchers(registrations[i], entries);
    let m = registrations_requests(earlier).len() as int;
    assert(requests_in(message)[m + k] == request);
}

/// A single request gives one pattern, with the base and the mask of the
/// request, if its pattern compiles, and else one refused pattern.
pub proof fn one_request_gives_one_pattern(request: RequestView, compiled: Compiled)
    ensures
        compiled matches Ok(glob) ==> {
            let patterns = patterns_of(seq![request], seq![compiled]);
            &&& patterns.len() == 1
            &&& patterns[0].base == request.base
            &&& patterns[0].kind_mask == request.kind_mask
            &&& patterns[0].glob == glob
            &&& refused_of(seq![request], seq![compiled]).len() == 0
        },
        compiled matches Err(failure) ==> {
            let refused = refused_of(seq![request], seq![compiled]);
            &&& refused.len() == 1
            &&& refused[0].pattern == request.pattern
            &&& refused[0].failure == failure
            &&& patterns_of(seq![request], seq![compiled]).len() == 0
        },
{
    assert(seq![request].drop_last() == Seq::<RequestView>::empty());
    assert(seq![compiled].drop_last() == Seq::<Compiled>::empty());
    let none = Seq::<RequestView>::empty();
    assert(patterns_of(none, Seq::empty()) == Seq::<PatternView>::empty());
    assert(refused_of(none, Seq::empty()) == Seq::<RefusedView>::empty());
}

/// Where every pattern that is asked for has at most 200 characters and every
/// platform accepts it, or has at most 2000 and neither brackets nor braces nor
/// backslashes, each request is watched: with its pattern, its base and its
/// mask, in order.
pub proof fn short_patterns_are_all_watched(requests: Seq<RequestView>, compiled: Seq<Compiled>)
    requires
        compiled_from(compiled, requests),
        forall|i: int|
            0 <= i < requests.len() ==> {
                let pattern = (#[trigger] requests[i]).pattern;
                ||| pattern.len() <= 200 && glob_accepted(pattern, GlobStyle::SlashSeparates)
                    && glob_accepted(pattern, GlobStyle::BackslashSeparates)
                ||| pattern.len() <= 2000 && forall|j: int|
                    0 <= j < pattern.len() ==> #[trigger] pattern[j] != '[' && pattern[j] != '{'
                        && pattern[j] != '}' && pattern[j] != '\\'
            },
    ensures
        patterns_of(requests, compiled).len() == requests.len(),
        refused_of(requests, compiled).len() == 0,
        forall|i: int|
            0 <= i < requests.len() ==> {
                let pattern = #[trigger] patterns_of(requests, compiled)[i];
                pattern.glob.pattern == requests[i].pattern && pattern.base == requests[i].base
                    && pattern.kind_mask == requests[i].kind_mask
            },
{
    assert forall|i: int| 0 <= i < requests.len() implies sure_to_compile(
        (#[trigger] requests[i]).pattern,
    ) by {
        let pattern = requests[i].pattern;
        if pattern.len() > 200 || !(glob_accepted(pattern, GlobStyle::SlashSeparates)
            && glob_accepted(pattern, GlobStyle::BackslashSeparates)) {
            assert(unbracketed(pattern));
            assert(!pattern.contains('{'));
        }
    }
    sure_requests_are_all_watched(requests, compiled);
    requests_are_watched_or_refused(requests, compiled);
}

/// The view of a request shows what its fields hold.
pub proof fn requests_show_their_fields(request: WatchRequest)
    ensures
        request@.pattern == request.pattern@,
        request@.kind_mask == request.kind_mask,
        request.base_path matches Some(base) ==> request@.base == Some(base@) && optional_text(
            request.base_path,
        ) == Some(base@),
        request.base_path is None ==> request@.base is None && optional_text(
            request.base_path,
        ) is None,
{
}

/// The view of a refused pattern shows what its fields hold.
pub proof fn refusals_show_their_fields(refused: RefusedPattern)
    ensures
        refused@.pattern == refused.pattern@,
        refused@.failure == refused.failure,
{
}

/// Lists show their items in order.
pub proof fn lists_show_their_items(
    requests: Seq<WatchRequest>,
    patterns: Seq<WatchedPattern>,
    refused: Seq<RefusedPattern>,
    i: int,
)
    ensures
        request_views(requests).len() == requests.len(),
        0 <= i < requests.len() ==> request_views(requests)[i] == requests[i]@,
        pattern_views(patterns).len() == patterns.len(),
        0 <= i < patterns.len() ==> pattern_views(patterns)[i] == patterns[i]@,
        refused_views(refused).len() == refused.len(),
        0 <= i < refused.len() ==> refused_views(refused)[i] == refused[i]@,
{
}

}
