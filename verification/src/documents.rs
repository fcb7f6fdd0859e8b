//! The text documents that the client has open.

use crate::edits::{applied_all, apply_changes, one_change_is_made_once};
use crate::json::{
    array_value, is_text, json_of, lemma_insert_depth, member, number_value, object_value,
    reads_back, text_value, whole_and_shallow, whole_number, Json, Members, DEPTH_LIMIT,
};
use crate::messages::{
    encode, lemma_deeper, lemma_notification_depth, notification, notification_json,
    notifications_have_three_members, on_the_wire, understood,
};
use crate::text::same_text;
use serde_json::Value;
use vstd::prelude::*;
use vstd::string::*;

verus! {

/// An open document: its content and its version.
pub struct Document {
    pub text: Seq<char>,
    pub version: i32,
}

/// The open documents, by their URIs.
pub type Documents = Map<Seq<char>, Document>;

/// The documents that are open after the client opened one. A message that
/// lacks the URI, the text or the version opens nothing.
pub open spec fn after_open(files: Documents, params: Json) -> Documents {
    let document = params.at("textDocument"@);
    match (document.at("uri"@).text(), document.at("text"@).text(), document.at("version"@).signed()) {
        (Some(uri), Some(text), Some(version)) => files.insert(
            uri,
            Document { text, version: version as i32 },
        ),
        _ => files,
    }
}

/// The documents that are open after the client closed one.
pub open spec fn after_close(files: Documents, params: Json) -> Documents {
    match params.at("textDocument"@).at("uri"@).text() {
        Some(uri) => files.remove(uri),
        None => files,
    }
}

/// The text that the record holds of a document; the empty one where it holds
/// none.
pub open spec fn recorded(files: Documents, uri: Seq<char>) -> Seq<char> {
    if files.contains_key(uri) {
        files[uri].text
    } else {
        Seq::empty()
    }
}

/// The list of changes in the parameters of a change message. There is none
/// where the list is empty, or its last change has no text.
pub open spec fn change_items(params: Json) -> Option<Seq<Json>> {
    match params.at("contentChanges"@).items() {
        Some(items) => if items.len() > 0 && items.last().at("text"@) is Text {
            Some(items)
        } else {
            None
        },
        None => None,
    }
}

/// The documents that are open after the client changed one. The changes are
/// made one after another to the recorded text; a missing version counts as
/// zero.
pub open spec fn after_change(files: Documents, params: Json) -> Documents {
    let document = params.at("textDocument"@);
    let version = match document.at("version"@).signed() {
        Some(version) => version as i32,
        None => 0,
    };
    match (document.at("uri"@).text(), change_items(params)) {
        (Some(uri), Some(changes)) => files.insert(
            uri,
            Document { text: applied_all(recorded(files, uri), changes), version },
        ),
        _ => files,
    }
}

/// The documents that are open after a message of the client. Messages other
/// than those about opening, closing and changing leave them as they are.
pub open spec fn after_message(files: Documents, message: Json) -> Documents {
    let method = message.at("method"@);
    let params = message.at("params"@);
    if method == Json::Text("textDocument/didOpen"@) {
        after_open(files, params)
    } else if method == Json::Text("textDocument/didClose"@) {
        after_close(files, params)
    } else if method == Json::Text("textDocument/didChange"@) {
        after_change(files, params)
    } else {
        files
    }
}

/// The documents with the version of each increased by one. Behind the
/// greatest version comes the least.
pub open spec fn nudged(files: Documents) -> Documents {
    files.map_values(|document: Document| nudged_document(document))
}

/// A document with its version increased by one.
pub open spec fn nudged_document(document: Document) -> Document {
    Document { text: document.text, version: document.version.wrapping_add(1) }
}

/// The notification that a document changed to the text that it has.
pub open spec fn nudge_notification(uri: Seq<char>, document: Document) -> Json {
    notification_json(
        "textDocument/didChange"@,
        Json::Object(
            Members::empty().insert(
                "textDocument"@,
                Json::Object(
                    Members::empty().insert("uri"@, Json::Text(uri)).insert(
                        "version"@,
                        whole_number(document.version as int),
                    ),
                ),
            ).insert(
                "contentChanges"@,
                Json::Array(
                    seq![
                        Json::Object(Members::empty().insert("text"@, Json::Text(document.text))),
                    ],
                ),
            ),
        ),
    )
}

/// An open document with its URI.
struct OpenFile {
    uri: String,
    text: String,
    version: i32,
}

impl OpenFile {
    spec fn document(self) -> Document {
        Document { text: self.text@, version: self.version }
    }
}

/// The documents that the client has open.
pub struct OpenFiles {
    files: Vec<OpenFile>,
}

/// Documents in a list, where a later one replaces an earlier one.
spec fn collected(files: Seq<OpenFile>) -> Documents
    decreases files.len(),
{
    if files.len() == 0 {
        Map::empty()
    } else {
        collected(files.drop_last()).insert(files.last().uri@, files.last().document())
    }
}

/// Whether no two entries have the same URI.
spec fn distinct(files: Seq<OpenFile>) -> bool {
    forall|i: int, j: int|
        0 <= i < j < files.len() ==> (#[trigger] files[i]).uri@ != (#[trigger] files[j]).uri@
}

proof fn lemma_collected(files: Seq<OpenFile>)
    requires
        distinct(files),
    ensures
        forall|i: int|
            0 <= i < files.len() ==> collected(files).contains_key((#[trigger] files[i]).uri@)
                && collected(files)[files[i].uri@] == files[i].document(),
        forall|uri: Seq<char>| #[trigger]
            collected(files).contains_key(uri) ==> exists|i: int|
                0 <= i < files.len() && (#[trigger] files[i]).uri@ == uri,
    decreases files.len(),
{
    if files.len() > 0 {
        let before = files.drop_last();
        assert(distinct(before)) by {
            assert forall|i: int, j: int| 0 <= i < j < before.len() implies (#[trigger] before[i]).uri@ != (
            #[trigger] before[j]).uri@ by {
                assert(before[i] == files[i]);
                assert(before[j] == files[j]);
            }
        }
        lemma_collected(before);
        assert forall|i: int| 0 <= i < files.len() implies collected(files).contains_key(
            (#[trigger] files[i]).uri@,
        ) && collected(files)[files[i].uri@] == files[i].document() by {
            if i < files.len() - 1 {
                assert(before[i] == files[i]);
                assert(files[i].uri@ != files[files.len() - 1].uri@);
            }
        }
        assert forall|uri: Seq<char>| #[trigger] collected(files).contains_key(uri) implies exists|
            i: int,
        |
            0 <= i < files.len() && (#[trigger] files[i]).uri@ == uri by {
            if uri != files.last().uri@ {
                assert(collected(before).contains_key(uri));
                let i = choose|i: int| 0 <= i < before.len() && (#[trigger] before[i]).uri@ == uri;
                assert(files[i].uri@ == uri);
            } else {
                assert(files[files.len() - 1].uri@ == uri);
            }
        }
    }
}

impl View for OpenFiles {
    type V = Documents;

    closed spec fn view(&self) -> Documents {
        collected(self.files@)
    }
}

impl OpenFiles {
    #[verifier::type_invariant]
    spec fn distinct_files(self) -> bool {
        distinct(self.files@)
    }

    /// The URIs of the open documents in the order in which they are listed.
    pub closed spec fn uris(self) -> Seq<Seq<char>> {
        self.files@.map_values(|file: OpenFile| file.uri@)
    }

    /// No document is open.
    pub fn new() -> (files: OpenFiles)
        ensures
            files@ == Documents::empty(),
    {
        OpenFiles { files: Vec::new() }
    }

    /// The place of a document in the list.
    fn find(&self, uri: &str) -> (place: Option<usize>)
        ensures
            match place {
                Some(i) => i < self.files@.len() && self.files@[i as int].uri@ == uri@,
                None => forall|i: int|
                    0 <= i < self.files@.len() ==> (#[trigger] self.files@[i]).uri@ != uri@,
            },
    {
        let mut i: usize = 0;
        while i < self.files.len()
            invariant
                i <= self.files@.len(),
                forall|j: int| 0 <= j < i ==> (#[trigger] self.files@[j]).uri@ != uri@,
            decreases self.files@.len() - i,
        {
            if same_text(self.files[i].uri.as_str(), uri) {
                return Some(i);
            }
            i += 1;
        }
        None
    }

    /// The text of a document.
    pub fn text(&self, uri: &str) -> (text: Option<&str>)
        ensures
            match text {
                Some(text) => self@.contains_key(uri@) && self@[uri@].text == text@,
                None => !self@.contains_key(uri@),
            },
    {
        proof {
            use_type_invariant(self);
            lemma_collected(self.files@);
        }
        match self.find(uri) {
            Some(i) => Some(self.files[i].text.as_str()),
            None => None,
        }
    }

    /// The URIs of the open documents, each once.
    pub fn uri_list(&self) -> (uris: Vec<String>)
        ensures
            uris@.map_values(|uri: String| uri@) == self.uris(),
            self.uris().no_duplicates(),
            self.uris().to_set() == self@.dom(),
    {
        proof {
            use_type_invariant(self);
            lemma_uris(self.files@);
        }
        let mut uris: Vec<String> = Vec::new();
        let mut i: usize = 0;
        while i < self.files.len()
            invariant
                i <= self.files@.len(),
                uris@.len() == i,
                forall|j: int| 0 <= j < i ==> (#[trigger] uris@[j])@ == self.files@[j].uri@,
            decreases self.files@.len() - i,
        {
            uris.push(self.files[i].uri.as_str().to_owned());
            i += 1;
        }
        uris
    }

    /// Takes a document out.
    pub fn remove(&mut self, uri: &str)
        ensures
            final(self)@ == old(self)@.remove(uri@),
    {
        proof {
            use_type_invariant(&*self);
        }
        match self.find(uri) {
            Some(i) => {
                let ghost before = self.files@;
                let mut files: Vec<OpenFile> = Vec::new();
                std::mem::swap(&mut files, &mut self.files);
                files.remove(i);
                self.files = files;
                proof {
                    lemma_removed(before, i as int);
                }
            },
            None => {
                proof {
                    lemma_collected(self.files@);
                    assert(self@.remove(uri@) == self@);
                }
            },
        }
    }

    /// Puts a document in, in place of one with the same URI.
    pub fn insert(&mut self, uri: &str, text: &str, version: i32)
        ensures
            final(self)@ == old(self)@.insert(uri@, (Document { text: text@, version })),
    {
        self.remove(uri);
        proof {
            use_type_invariant(&*self);
            lemma_collected(self.files@);
        }
        let file = OpenFile { uri: uri.to_owned(), text: text.to_owned(), version };
        let ghost before = self.files@;
        let mut files: Vec<OpenFile> = Vec::new();
        std::mem::swap(&mut files, &mut self.files);
        files.push(file);
        proof {
            assert(files@.drop_last() == before);
            assert forall|i: int, j: int| 0 <= i < j < files@.len() implies (
            #[trigger] files@[i]).uri@ != (#[trigger] files@[j]).uri@ by {
                assert(files@[i] == before[i]);
                if j < before.len() {
                    assert(files@[j] == before[j]);
                } else {
                    assert(collected(before).contains_key(before[i].uri@));
                }
            }
        }
        self.files = files;
        assert(self@ == old(self)@.remove(uri@).insert(uri@, (Document { text: text@, version })));
    }
}

/// Increases the version of each document by one, and makes for each a
/// message, which the server can read, that it changed to the text that it has.
pub fn nudge_open_files(files: &mut OpenFiles) -> (messages: Vec<Vec<u8>>)
    ensures
        final(files)@ == nudged(old(files)@),
        final(files).uris() == old(files).uris(),
        final(files).uris().no_duplicates(),
        final(files).uris().to_set() == final(files)@.dom(),
        messages@.len() == final(files).uris().len(),
        forall|i: int|
            0 <= i < messages@.len() ==> (#[trigger] messages@[i])@ == on_the_wire(
                nudge_notification(final(files).uris()[i], final(files)@[final(files).uris()[i]]),
            ),
        forall|i: int|
            0 <= i < messages@.len() ==> understood(
                nudge_notification(
                    #[trigger] final(files).uris()[i],
                    final(files)@[final(files).uris()[i]],
                ),
            ),
{
    proof {
        use_type_invariant(&*files);
    }
    let ghost before = files.files@;
    let mut list: Vec<OpenFile> = Vec::new();
    std::mem::swap(&mut list, &mut files.files);
    let mut messages: Vec<Vec<u8>> = Vec::new();
    let mut i: usize = 0;
    while i < list.len()
        invariant
            i <= list@.len(),
            list@.len() == before.len(),
            forall|j: int| i <= j < before.len() ==> list@[j] == #[trigger] before[j],
            forall|j: int|
                0 <= j < i ==> (#[trigger] list@[j]).uri@ == before[j].uri@ && list@[j].document()
                    == nudged_document(before[j].document()),
            messages@.len() == i,
            forall|j: int|
                0 <= j < i ==> (#[trigger] messages@[j])@ == on_the_wire(
                    nudge_notification(list@[j].uri@, list@[j].document()),
                ) && understood(nudge_notification(list@[j].uri@, list@[j].document())),
        decreases list@.len() - i,
    {
        assert(list@[i as int] == before[i as int]);
        list[i].version = list[i].version.wrapping_add(1);
        match encoded_nudge(&list[i]) {
            Some(message) => {
                messages.push(message);
            },
            None => {},
        }
        i += 1;
    }
    proof {
        lemma_nudged(before, list@);
    }
    files.files = list;
    proof {
        lemma_uris(files.files@);
        lemma_collected(files.files@);
        assert(files.uris() == before.map_values(|file: OpenFile| file.uri@));
        assert forall|j: int| 0 <= j < messages@.len() implies understood(
            nudge_notification(#[trigger] files.uris()[j], files@[files.uris()[j]]),
        ) by {
            assert(messages@[j]@ == on_the_wire(
                nudge_notification(files.uris()[j], files@[files.uris()[j]]),
            ));
        }
    }
    messages
}

/// A nudge can be read back.
proof fn lemma_nudge_depth(uri: Seq<char>, document: Document)
    ensures
        reads_back(nudge_notification(uri, document)),
{
    let start = Members::empty();
    let version = whole_number(document.version as int);
    let identifier = start.insert("uri"@, Json::Text(uri)).insert("version"@, version);
    lemma_insert_depth(start, "uri"@, Json::Text(uri), 0);
    lemma_insert_depth(start.insert("uri"@, Json::Text(uri)), "version"@, version, 0);
    let change = start.insert("text"@, Json::Text(document.text));
    lemma_insert_depth(start, "text"@, Json::Text(document.text), 0);
    let changes = Json::Array(seq![Json::Object(change)]);
    assert(whole_and_shallow(changes, 2));
    lemma_deeper(Json::Object(identifier), 1, 2);
    lemma_insert_depth(start, "textDocument"@, Json::Object(identifier), 2);
    let first = start.insert("textDocument"@, Json::Object(identifier));
    lemma_insert_depth(first, "contentChanges"@, changes, 2);
    let params = Json::Object(first.insert("contentChanges"@, changes));
    lemma_notification_depth("textDocument/didChange"@, params, 3);
    lemma_deeper(nudge_notification(uri, document), 4, DEPTH_LIMIT as nat);
}

/// Makes the message that a document changed to the text that it has.
fn nudge_message(file: &OpenFile) -> (message: Value)
    ensures
        json_of(message) == nudge_notification(file.uri@, file.document()),
{
    let mut document: serde_json::Map<String, Value> = serde_json::Map::new();
    document.insert(String::from_str("uri"), text_value(file.uri.as_str()));
    document.insert(String::from_str("version"), number_value(file.version as i64));
    let mut change: serde_json::Map<String, Value> = serde_json::Map::new();
    change.insert(String::from_str("text"), text_value(file.text.as_str()));
    let mut changes: Vec<Value> = Vec::new();
    changes.push(object_value(change));
    assert(changes@.map_values(|item: Value| json_of(item)) == seq![
        Json::Object(Members::empty().insert("text"@, Json::Text(file.text@))),
    ]);
    let mut params: serde_json::Map<String, Value> = serde_json::Map::new();
    params.insert(String::from_str("textDocument"), object_value(document));
    params.insert(String::from_str("contentChanges"), array_value(changes));
    notification("textDocument/didChange", object_value(params))
}

/// Writes the message that a document changed to the text that it has.
fn encoded_nudge(file: &OpenFile) -> (bytes: Option<Vec<u8>>)
    ensures
        bytes is Some,
        bytes->Some_0@ == on_the_wire(nudge_notification(file.uri@, file.document())),
        understood(nudge_notification(file.uri@, file.document())),
{
    proof {
        lemma_nudge_depth(file.uri@, file.document());
    }
    encode(&nudge_message(file))
}

/// Follows a message of the client in the record of its open documents.
pub fn track_open_file(message: &Value, files: &mut OpenFiles)
    ensures
        final(files)@ == after_message(old(files)@, json_of(*message)),
{
    proof {
        reveal_strlit("textDocument/didOpen");
        reveal_strlit("textDocument/didClose");
        reveal_strlit("textDocument/didChange");
        reveal_strlit("");
        assert(""@ == Seq::<char>::empty());
    }
    let method: &Value = member(message, "method");
    let params: &Value = member(message, "params");
    let document: &Value = member(params, "textDocument");
    if is_text(method, "textDocument/didOpen") {
        let version: Option<i64> = member(document, "version").as_i64();
        match (member(document, "uri").as_str(), member(document, "text").as_str(), version) {
            (Some(uri), Some(text), Some(version)) => {
                files.insert(uri, text, #[verifier::truncate] (version as i32));
            },
            _ => {},
        }
    } else if is_text(method, "textDocument/didClose") {
        match member(document, "uri").as_str() {
            Some(uri) => {
                files.remove(uri);
            },
            None => {},
        }
    } else if is_text(method, "textDocument/didChange") {
        let version: i32 = match member(document, "version").as_i64() {
            Some(version) => #[verifier::truncate] (version as i32),
            None => 0,
        };
        match (member(document, "uri").as_str(), member(params, "contentChanges").as_array()) {
            (Some(uri), Some(changes)) => {
                if changes.len() > 0 && member(&changes[changes.len() - 1], "text").as_str().is_some() {
                    let text: String = match files.text(uri) {
                        Some(before) => apply_changes(before, changes),
                        None => apply_changes("", changes),
                    };
                    files.insert(uri, text.as_str(), version);
                }
            },
            _ => {},
        }
    }
}

proof fn lemma_removed(files: Seq<OpenFile>, i: int)
    requires
        distinct(files),
        0 <= i < files.len(),
    ensures
        distinct(files.remove(i)),
        collected(files.remove(i)) == collected(files).remove(files[i].uri@),
{
    let rest = files.remove(i);
    assert(distinct(rest)) by {
        assert forall|j: int, k: int| 0 <= j < k < rest.len() implies (#[trigger] rest[j]).uri@ != (
        #[trigger] rest[k]).uri@ by {
            let p = if j < i { j } else { j + 1 };
            let q = if k < i { k } else { k + 1 };
            assert(rest[j] == files[p]);
            assert(rest[k] == files[q]);
        }
    }
    lemma_collected(files);
    lemma_collected(rest);
    let left = collected(rest);
    let right = collected(files).remove(files[i].uri@);
    assert forall|uri: Seq<char>| left.contains_key(uri) implies #[trigger] right.contains_key(uri)
        && left[uri] == right[uri] by {
        let j = choose|j: int| 0 <= j < rest.len() && (#[trigger] rest[j]).uri@ == uri;
        let p = if j < i { j } else { j + 1 };
        assert(rest[j] == files[p]);
        if p < i {
            assert(files[p].uri@ != files[i].uri@);
        } else {
            assert(files[i].uri@ != files[p].uri@);
        }
    }
    assert forall|uri: Seq<char>| #[trigger] right.contains_key(uri) implies left.contains_key(uri) by {
        assert(collected(files).contains_key(uri));
        let p = choose|p: int| 0 <= p < files.len() && (#[trigger] files[p]).uri@ == uri;
        let j = if p < i { p } else { p - 1 };
        assert(rest[j] == files[p]);
    }
    assert(left =~= right);
}

proof fn lemma_nudged(before: Seq<OpenFile>, after: Seq<OpenFile>)
    requires
        distinct(before),
        before.len() == after.len(),
        forall|j: int|
            0 <= j < after.len() ==> (#[trigger] after[j]).uri@ == before[j].uri@
                && after[j].document() == nudged_document(before[j].document()),
    ensures
        distinct(after),
        collected(after) == nudged(collected(before)),
    decreases before.len(),
{
    assert(distinct(after)) by {
        assert forall|i: int, j: int| 0 <= i < j < after.len() implies (#[trigger] after[i]).uri@ != (
        #[trigger] after[j]).uri@ by {
            assert(before[i].uri@ != before[j].uri@);
        }
    }
    lemma_collected(before);
    lemma_collected(after);
    let left = collected(after);
    let right = nudged(collected(before));
    assert forall|uri: Seq<char>| left.contains_key(uri) implies #[trigger] right.contains_key(uri)
        && left[uri] == right[uri] by {
        let j = choose|j: int| 0 <= j < after.len() && (#[trigger] after[j]).uri@ == uri;
        assert(collected(before).contains_key(before[j].uri@));
    }
    assert forall|uri: Seq<char>| #[trigger] right.contains_key(uri) implies left.contains_key(uri) by {
        assert(collected(before).contains_key(uri));
        let j = choose|j: int| 0 <= j < before.len() && (#[trigger] before[j]).uri@ == uri;
        assert(after[j].uri@ == uri);
    }
    assert(left =~= right);
}

proof fn lemma_uris(files: Seq<OpenFile>)
    requires
        distinct(files),
    ensures
        files.map_values(|file: OpenFile| file.uri@).no_duplicates(),
        files.map_values(|file: OpenFile| file.uri@).to_set() == collected(files).dom(),
{
    let uris = files.map_values(|file: OpenFile| file.uri@);
    lemma_collected(files);
    assert forall|i: int, j: int| 0 <= i < uris.len() && 0 <= j < uris.len() && i != j implies uris[i]
        != uris[j] by {
        if i < j {
            assert(files[i].uri@ != files[j].uri@);
        } else {
            assert(files[j].uri@ != files[i].uri@);
        }
    }
    assert forall|uri: Seq<char>| uris.to_set().contains(uri) == collected(files).dom().contains(uri) by {
        if uris.contains(uri) {
            let i = choose|i: int| 0 <= i < uris.len() && uris[i] == uri;
            assert(files[i].uri@ == uri);
        }
        if collected(files).contains_key(uri) {
            let i = choose|i: int| 0 <= i < files.len() && (#[trigger] files[i]).uri@ == uri;
            assert(uris[i] == uri);
        }
    }
    assert(uris.to_set() =~= collected(files).dom());
}

/// A message about one document leaves the record of the others as it is.
pub proof fn other_documents_are_kept(files: Documents, message: Json, uri: Seq<char>)
    requires
        message.at("params"@).at("textDocument"@).at("uri"@) != Json::Text(uri),
    ensures
        after_message(files, message).contains_key(uri) == files.contains_key(uri),
        files.contains_key(uri) ==> after_message(files, message)[uri] == files[uri],
{
}

/// A document that was opened and closed again is not open, and the others
/// are as they were.
pub proof fn closing_undoes_opening(files: Documents, opening: Json, closing: Json, uri: Seq<char>)
    requires
        opening.at("method"@) == Json::Text("textDocument/didOpen"@),
        opening.at("params"@).at("textDocument"@).at("uri"@) == Json::Text(uri),
        closing.at("method"@) == Json::Text("textDocument/didClose"@),
        closing.at("params"@).at("textDocument"@).at("uri"@) == Json::Text(uri),
    ensures
        after_message(after_message(files, opening), closing) == files.remove(uri),
{
    reveal_strlit("textDocument/didOpen");
    reveal_strlit("textDocument/didClose");
    assert("textDocument/didOpen"@.len() != "textDocument/didClose"@.len());
    let opened = after_message(files, opening);
    assert(opened.remove(uri) =~= files.remove(uri));
}

/// A change without a range as the last one gives the text whole, whatever was
/// recorded before.
pub proof fn whole_texts_are_recorded(files: Documents, message: Json, uri: Seq<char>)
    requires
        message.at("method"@) == Json::Text("textDocument/didChange"@),
        message.at("params"@).at("textDocument"@).at("uri"@) == Json::Text(uri),
        change_items(message.at("params"@)) is Some,
        change_items(message.at("params"@))->Some_0.last().at("range"@) is Null,
    ensures
        after_message(files, message).contains_key(uri),
        Some(after_message(files, message)[uri].text) == change_items(
            message.at("params"@),
        )->Some_0.last().at("text"@).text(),
{
    reveal_strlit("textDocument/didOpen");
    reveal_strlit("textDocument/didClose");
    reveal_strlit("textDocument/didChange");
    assert("textDocument/didChange"@.len() != "textDocument/didOpen"@.len());
    assert("textDocument/didChange"@.len() != "textDocument/didClose"@.len());
}

/// The record follows a document: it holds the text that the changes make of
/// the text before.
pub proof fn the_record_follows_changes(files: Documents, message: Json, uri: Seq<char>)
    requires
        message.at("method"@) == Json::Text("textDocument/didChange"@),
        message.at("params"@).at("textDocument"@).at("uri"@) == Json::Text(uri),
        change_items(message.at("params"@)) is Some,
    ensures
        after_message(files, message).contains_key(uri),
        recorded(after_message(files, message), uri) == applied_all(
            recorded(files, uri),
            change_items(message.at("params"@))->Some_0,
        ),
{
    reveal_strlit("textDocument/didOpen");
    reveal_strlit("textDocument/didClose");
    reveal_strlit("textDocument/didChange");
    assert("textDocument/didChange"@.len() != "textDocument/didOpen"@.len());
    assert("textDocument/didChange"@.len() != "textDocument/didClose"@.len());
}

/// A document that is recorded stays so until it is closed.
pub proof fn open_documents_stay_recorded(files: Documents, message: Json, uri: Seq<char>)
    requires
        files.contains_key(uri),
        message.at("method"@) != Json::Text("textDocument/didClose"@),
    ensures
        after_message(files, message).contains_key(uri),
{
}

/// The documents that are open after several messages of the client.
pub open spec fn after_messages(files: Documents, messages: Seq<Json>) -> Documents
    decreases messages.len(),
{
    if messages.len() == 0 {
        files
    } else {
        after_message(after_messages(files, messages.drop_last()), messages.last())
    }
}

/// Whether a message is about a document.
pub open spec fn names_document(message: Json, uri: Seq<char>) -> bool {
    message.at("params"@).at("textDocument"@).at("uri"@) == Json::Text(uri)
}

/// Whether a message opens a document: it says so, and gives the text and the
/// version.
pub open spec fn opens(message: Json, uri: Seq<char>) -> bool {
    let document = message.at("params"@).at("textDocument"@);
    &&& message.at("method"@) == Json::Text("textDocument/didOpen"@)
    &&& names_document(message, uri)
    &&& document.at("text"@) is Text
    &&& document.at("version"@).signed() is Some
}

/// Whether a message closes a document.
pub open spec fn closes(message: Json, uri: Seq<char>) -> bool {
    message.at("method"@) == Json::Text("textDocument/didClose"@) && names_document(message, uri)
}

/// Whether a message changes a document.
pub open spec fn changes(message: Json, uri: Seq<char>) -> bool {
    message.at("method"@) == Json::Text("textDocument/didChange"@) && names_document(message, uri)
}

/// Whether one of several messages opens a document and none after it closes
/// it.
pub open spec fn left_open(messages: Seq<Json>, uri: Seq<char>) -> bool
    decreases messages.len(),
{
    if messages.len() == 0 {
        false
    } else if opens(messages.last(), uri) {
        true
    } else if closes(messages.last(), uri) {
        false
    } else {
        left_open(messages.drop_last(), uri)
    }
}

/// Whether a document is changed only while it is open.
pub open spec fn changed_while_open(messages: Seq<Json>, uri: Seq<char>) -> bool {
    forall|i: int|
        0 <= i < messages.len() && changes(#[trigger] messages[i], uri) ==> left_open(
            messages.take(i),
            uri,
        )
}

/// What is recorded is just what is open: of a client that changes a document
/// only while it is open, the record holds the document if and only if the
/// client opened it and has not closed it since.
pub proof fn the_record_holds_what_is_open(messages: Seq<Json>, uri: Seq<char>)
    requires
        changed_while_open(messages, uri),
    ensures
        after_messages(Documents::empty(), messages).contains_key(uri) <==> left_open(
            messages,
            uri,
        ),
    decreases messages.len(),
{
    if messages.len() > 0 {
        let fewer = messages.drop_last();
        let message = messages.last();
        let before = after_messages(Documents::empty(), fewer);
        assert(changed_while_open(fewer, uri)) by {
            assert forall|i: int| 0 <= i < fewer.len() && changes(
                #[trigger] fewer[i],
                uri,
            ) implies left_open(fewer.take(i), uri) by {
                assert(messages[i] == fewer[i]);
                assert(messages.take(i) == fewer.take(i));
            }
        }
        the_record_holds_what_is_open(fewer, uri);
        assert(messages.take(messages.len() - 1) == fewer);
        assert(messages[messages.len() - 1] == message);
        reveal_strlit("textDocument/didOpen");
        reveal_strlit("textDocument/didClose");
        reveal_strlit("textDocument/didChange");
        assert("textDocument/didOpen"@.len() != "textDocument/didClose"@.len());
        assert("textDocument/didChange"@.len() != "textDocument/didOpen"@.len());
        assert("textDocument/didChange"@.len() != "textDocument/didClose"@.len());
        if !names_document(message, uri) {
            other_documents_are_kept(before, message, uri);
        }
    }
}

/// A nudge keeps which documents are open and what they hold, and gives each a
/// greater version, unless it has the greatest there is.
pub proof fn nudging_keeps_texts(files: Documents, uri: Seq<char>)
    requires
        files.contains_key(uri),
    ensures
        nudged(files).dom() == files.dom(),
        nudged(files)[uri].text == files[uri].text,
        files[uri].version < i32::MAX ==> nudged(files)[uri].version == files[uri].version + 1,
{
    assert(nudged(files).dom() =~= files.dom());
}

/// What a nudge tells the server of a document is what the record holds: to
/// follow the nudge as if it came from the client changes nothing.
pub proof fn nudges_agree_with_the_record(files: Documents, uri: Seq<char>)
    requires
        files.contains_key(uri),
    ensures
        after_message(files, nudge_notification(uri, files[uri])) == files,
{
    reveal_strlit("textDocument/didOpen");
    reveal_strlit("textDocument/didClose");
    reveal_strlit("textDocument/didChange");
    reveal_strlit("jsonrpc");
    reveal_strlit("method");
    reveal_strlit("params");
    reveal_strlit("textDocument");
    reveal_strlit("contentChanges");
    reveal_strlit("uri");
    reveal_strlit("version");
    reveal_strlit("text");
    reveal_strlit("range");
    assert("text"@.len() != "range"@.len());
    assert("textDocument/didChange"@.len() != "textDocument/didOpen"@.len());
    assert("textDocument/didChange"@.len() != "textDocument/didClose"@.len());
    assert("jsonrpc"@.len() != "method"@.len());
    assert("method"@[0] != "params"@[0]);
    assert("textDocument"@.len() != "contentChanges"@.len());
    assert("uri"@.len() != "version"@.len());
    let document = files[uri];
    let message = nudge_notification(uri, document);
    let params = message.at("params"@);
    assert(message.at("method"@) == Json::Text("textDocument/didChange"@));
    assert(params.at("textDocument"@).at("uri"@) == Json::Text(uri));
    assert(params.at("textDocument"@).at("version"@) == whole_number(document.version as int));
    assert(whole_number(document.version as int).signed() == Some(document.version as i64));
    let changes = change_items(params)->Some_0;
    assert(applied_all(document.text, changes) == document.text);
    assert(files.insert(uri, document) =~= files);
}

proof fn lemma_methods_differ()
    ensures
        "textDocument/didOpen"@ != "textDocument/didClose"@,
        "textDocument/didOpen"@ != "textDocument/didChange"@,
        "textDocument/didClose"@ != "textDocument/didChange"@,
{
    reveal_strlit("textDocument/didOpen");
    reveal_strlit("textDocument/didClose");
    reveal_strlit("textDocument/didChange");
    assert("textDocument/didOpen"@.len() == 20);
    assert("textDocument/didClose"@.len() == 21);
    assert("textDocument/didChange"@.len() == 22);
}

proof fn lemma_version_bits(version: i64)
    ensures
        i32::MIN <= version <= i32::MAX ==> version as i32 == version,
        (version as int - (version as i32) as int) % 0x1_0000_0000 == 0,
{
    assert((version - (version as i32) as i64) % 0x1_0000_0000 == 0) by (bit_vector);
}

/// A document is recorded with the text and the version that it is opened with;
/// of a version that does not fit, the lowest 32 bits are kept.
pub proof fn opening_records_text_and_version(
    files: Documents,
    message: Json,
    uri: Seq<char>,
    text: Seq<char>,
    version: i64,
)
    requires
        message.at("method"@) == Json::Text("textDocument/didOpen"@),
        message.at("params"@).at("textDocument"@).at("uri"@) == Json::Text(uri),
        message.at("params"@).at("textDocument"@).at("text"@) == Json::Text(text),
        message.at("params"@).at("textDocument"@).at("version"@).signed() == Some(version),
    ensures
        after_message(files, message).contains_key(uri),
        after_message(files, message)[uri].text == text,
        i32::MIN <= version <= i32::MAX ==> after_message(files, message)[uri].version == version,
        (version as int - after_message(files, message)[uri].version as int) % 0x1_0000_0000 == 0,
{
    lemma_methods_differ();
    lemma_version_bits(version);
}

/// What lacks the URI, the text or the version opens nothing.
pub proof fn incomplete_openings_change_nothing(files: Documents, message: Json)
    requires
        message.at("method"@) == Json::Text("textDocument/didOpen"@),
        ({
            let document = message.at("params"@).at("textDocument"@);
            ||| !(document.at("uri"@) is Text)
            ||| !(document.at("text"@) is Text)
            ||| document.at("version"@).signed() is None
        }),
    ensures
        after_message(files, message) == files,
{
    lemma_methods_differ();
}

/// Closing takes the document out of the record, and nothing else.
pub proof fn closing_forgets_the_document(
    files: Documents,
    message: Json,
    uri: Seq<char>,
    other: Seq<char>,
)
    requires
        message.at("method"@) == Json::Text("textDocument/didClose"@),
        message.at("params"@).at("textDocument"@).at("uri"@) == Json::Text(uri),
    ensures
        !after_message(files, message).contains_key(uri),
        other != uri ==> after_message(files, message).contains_key(other) == files.contains_key(
            other,
        ),
        other != uri && files.contains_key(other) ==> after_message(files, message)[other]
            == files[other],
{
    lemma_methods_differ();
}

/// A change is recorded with the text that the changes make, one after another,
/// of the text before, and with the version that the message gives, or zero.
pub proof fn changing_records_text_and_version(
    files: Documents,
    message: Json,
    uri: Seq<char>,
    changes: Seq<Json>,
)
    requires
        message.at("method"@) == Json::Text("textDocument/didChange"@),
        message.at("params"@).at("textDocument"@).at("uri"@) == Json::Text(uri),
        message.at("params"@).at("contentChanges"@) == Json::Array(changes),
        changes.len() > 0,
        changes.last().at("text"@) is Text,
    ensures
        ({
            let after = after_message(files, message);
            let given = message.at("params"@).at("textDocument"@).at("version"@).signed();
            &&& after.contains_key(uri)
            &&& files.contains_key(uri) ==> after[uri].text == applied_all(
                files[uri].text,
                changes,
            )
            &&& !files.contains_key(uri) ==> after[uri].text == applied_all(Seq::empty(), changes)
            &&& given is None ==> after[uri].version == 0
            &&& given matches Some(version) ==> {
                &&& i32::MIN <= version <= i32::MAX ==> after[uri].version == version
                &&& (version as int - after[uri].version as int) % 0x1_0000_0000 == 0
            }
        }),
{
    lemma_methods_differ();
    if let Some(version) = message.at("params"@).at("textDocument"@).at("version"@).signed() {
        lemma_version_bits(version);
    }
}

/// A change whose list of changes is missing or empty, or whose last change has
/// no text, changes nothing, nor does one without a URI.
pub proof fn incomplete_changes_change_nothing(files: Documents, message: Json)
    requires
        message.at("method"@) == Json::Text("textDocument/didChange"@),
        ({
            let changes = message.at("params"@).at("contentChanges"@);
            ||| !(message.at("params"@).at("textDocument"@).at("uri"@) is Text)
            ||| !(changes is Array)
            ||| changes->Array_0.len() == 0
            ||| !(changes->Array_0.last().at("text"@) is Text)
        }),
    ensures
        after_message(files, message) == files,
{
    lemma_methods_differ();
}

/// Other messages change nothing.
pub proof fn other_messages_change_nothing(files: Documents, message: Json)
    requires
        message.at("method"@) != Json::Text("textDocument/didOpen"@),
        message.at("method"@) != Json::Text("textDocument/didClose"@),
        message.at("method"@) != Json::Text("textDocument/didChange"@),
    ensures
        after_message(files, message) == files,
{
}

/// A nudge is a change of the document: it has the URI, the version and, as its
/// only change, the whole text, so that the server has that text afterwards
/// whatever it had before. It holds nothing else.
pub proof fn nudges_give_the_whole_text(
    uri: Seq<char>,
    document: Document,
    before: Seq<char>,
    key: Seq<char>,
)
    ensures
        ({
            let nudge = nudge_notification(uri, document);
            let params = nudge.at("params"@);
            let changes = params.at("contentChanges"@);
            &&& nudge.at("jsonrpc"@) == Json::Text("2.0"@)
            &&& nudge.at("method"@) == Json::Text("textDocument/didChange"@)
            &&& !nudge.has("id"@)
            &&& params.at("textDocument"@).at("uri"@) == Json::Text(uri)
            &&& params.at("textDocument"@).at("version"@).signed() == Some(document.version as i64)
            &&& changes is Array
            &&& changes->Array_0.len() == 1
            &&& changes->Array_0[0].at("text"@) == Json::Text(document.text)
            &&& !changes->Array_0[0].has("range"@)
            &&& applied_all(before, changes->Array_0) == document.text
            &&& params.has(key) <==> key == "textDocument"@ || key == "contentChanges"@
            &&& params.at("textDocument"@).has(key) <==> key == "uri"@ || key == "version"@
            &&& changes->Array_0[0].has(key) <==> key == "text"@
        }),
{
    reveal_strlit("id");
    reveal_strlit("jsonrpc");
    reveal_strlit("method");
    reveal_strlit("params");
    reveal_strlit("textDocument");
    reveal_strlit("contentChanges");
    reveal_strlit("uri");
    reveal_strlit("version");
    reveal_strlit("text");
    reveal_strlit("range");
    assert("id"@.len() == 2 && "jsonrpc"@.len() == 7 && "method"@.len() == 6 && "params"@.len()
        == 6);
    assert("textDocument"@.len() != "contentChanges"@.len());
    assert("uri"@.len() != "version"@.len());
    assert("text"@.len() != "range"@.len());
    let nudge = nudge_notification(uri, document);
    let params = nudge.at("params"@);
    notifications_have_three_members("textDocument/didChange"@, params, "id"@);
    assert("method"@[0] != "params"@[0]);
    let changes = params.at("contentChanges"@)->Array_0;
    assert(changes == seq![changes[0]]);
    one_change_is_made_once(before, changes[0]);
}

/// Nudging increases each version by one, from the greatest to the least, and
/// keeps which documents are open and what they hold.
pub proof fn nudging_increases_versions(files: Documents, uri: Seq<char>)
    ensures
        nudged(files).contains_key(uri) <==> files.contains_key(uri),
        files.contains_key(uri) ==> {
            &&& nudged(files)[uri].text == files[uri].text
            &&& files[uri].version < 0x7fff_ffff ==> nudged(files)[uri].version
                == files[uri].version + 1
            &&& files[uri].version == 0x7fff_ffff ==> nudged(files)[uri].version == -0x8000_0000
        },
{
}

}
