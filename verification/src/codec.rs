//! The text of a note file: a metadata header, a blank line, the body.
//!
//! The header is one line, `<!-- ` and ` -->` around a JSON object with the
//! members `title`, `isCollapsed`, `order`, `createdAt` and `updatedAt`.
//! Older files have no header: they start with a heading line, `# ` and the
//! title, or are body text from the first character on. Under a header or a
//! heading the second line is the separator, and the body is all that
//! follows it, character by character.

use vstd::prelude::*;
use crate::error::NoteError;
use crate::json::{
    empty_object, flag_member, holds_atoms_only, insert_flag, insert_integer, insert_text,
    integer_member, json_document, json_text, member_flag, member_integer, member_text,
    parse_object, render_object, text_member, JsonAtom,
};
use crate::note::{NoteBlock, NoteView};
use crate::text::{
    after_first_line, chars_of, ends_with, first_line_end, is_prefix, is_suffix, lemma_line_end,
    lemma_line_end_is, lemma_lines_of_first, line_end, lines_of, next_line, push_chars,
    starts_with, string_of,
};

verus! {

/// The characters that open a metadata header.
pub open spec fn header_open() -> Seq<char> {
    "<!-- "@
}

/// The characters that close a metadata header.
pub open spec fn header_close() -> Seq<char> {
    " -->"@
}

/// The characters that start a heading line.
pub open spec fn heading_mark() -> Seq<char> {
    "# "@
}

/// The title of a note that names none.
pub open spec fn untitled() -> Seq<char> {
    "Untitled"@
}

/// The line is a metadata header: it opens and closes as one, and the two
/// marks do not overlap.
pub open spec fn is_header(line: Seq<char>) -> bool {
    &&& line.len() >= header_open().len() + header_close().len()
    &&& is_prefix(header_open(), line)
    &&& is_suffix(header_close(), line)
}

/// What stands between the marks of a header line.
pub open spec fn payload_of(line: Seq<char>) -> Seq<char> {
    line.subrange(header_open().len() as int, line.len() - header_close().len())
}

/// The title that a heading line gives, where the line is one.
pub open spec fn heading_title(line: Seq<char>) -> Option<Seq<char>> {
    if is_prefix(heading_mark(), line) {
        Some(line.subrange(heading_mark().len() as int, line.len() as int))
    } else {
        None
    }
}

/// The body of a file that starts with a header or a heading: the text after
/// its second line, as it stands. A file of fewer than three lines has none.
pub open spec fn body_of(text: Seq<char>) -> Seq<char> {
    let rest = text.subrange(after_first_line(text), text.len() as int);
    rest.subrange(after_first_line(rest), rest.len() as int)
}

/// What a header says of a note. Each part may be missing.
pub struct HeaderFields {
    pub title: Option<String>,
    pub is_collapsed: Option<bool>,
    pub order: Option<i64>,
    pub created_at: Option<String>,
}

/// `HeaderFields` as a mathematical value.
pub struct HeaderView {
    pub title: Option<Seq<char>>,
    pub is_collapsed: Option<bool>,
    pub order: Option<int>,
    pub created_at: Option<Seq<char>>,
}

/// The view of a string that may be missing.
pub open spec fn text_view(value: Option<String>) -> Option<Seq<char>> {
    match value {
        Some(text) => Some(text@),
        None => None,
    }
}

impl View for HeaderFields {
    type V = HeaderView;

    open spec fn view(&self) -> HeaderView {
        HeaderView {
            title: text_view(self.title),
            is_collapsed: self.is_collapsed,
            order: match self.order {
                Some(value) => Some(value as int),
                None => None,
            },
            created_at: text_view(self.created_at),
        }
    }
}

/// A header that says nothing.
pub open spec fn no_fields() -> HeaderView {
    HeaderView { title: None, is_collapsed: None, order: None, created_at: None }
}

/// What the members of a JSON object say of a note. A member of another
/// type than expected counts as missing, and so does every member where the
/// payload is no JSON object.
pub open spec fn fields_of(document: Option<Map<Seq<char>, JsonAtom>>) -> HeaderView {
    match document {
        Some(members) => HeaderView {
            title: member_text(members, "title"@),
            is_collapsed: member_flag(members, "isCollapsed"@),
            order: member_integer(members, "order"@),
            created_at: member_text(members, "createdAt"@),
        },
        None => no_fields(),
    }
}

/// What the header of `text` says: the fields of its first line's payload,
/// or nothing where the first line is no header.
pub open spec fn header_of(text: Seq<char>) -> HeaderView {
    let lines = lines_of(text);
    if lines.len() > 0 && is_header(lines[0]) {
        fields_of(json_document(payload_of(lines[0])))
    } else {
        no_fields()
    }
}

/// The note that a file's text spells, given what the payload of its header
/// says. A title comes from the header, else from a heading line directly
/// under it, else it is `Untitled`. A file without a header that starts with
/// a heading line takes its title from there. In both forms the line after
/// the first is the separator, and the content is the body that follows it,
/// as it stands. Any other file is content as a whole.
pub open spec fn decode_given(text: Seq<char>, id: Seq<char>, header: HeaderView) -> NoteView {
    let lines = lines_of(text);
    if lines.len() > 0 && is_header(lines[0]) {
        NoteView {
            id,
            title: match header.title {
                Some(title) => title,
                None => if lines.len() > 1 && heading_title(lines[1]) is Some {
                    heading_title(lines[1])->0
                } else {
                    untitled()
                },
            },
            content: body_of(text),
            is_collapsed: match header.is_collapsed {
                Some(flag) => flag,
                None => false,
            },
            order: match header.order {
                Some(value) => (value as i32) as int,
                None => 0,
            },
        }
    } else if lines.len() > 0 && heading_title(lines[0]) is Some {
        NoteView {
            id,
            title: heading_title(lines[0])->0,
            content: body_of(text),
            is_collapsed: false,
            order: 0,
        }
    } else {
        NoteView { id, title: untitled(), content: text, is_collapsed: false, order: 0 }
    }
}

/// The note that a file's text spells.
pub open spec fn decode_spec(text: Seq<char>, id: Seq<char>) -> NoteView {
    decode_given(text, id, header_of(text))
}

/// The text of a file with the given header payload and body.
pub open spec fn framed(payload: Seq<char>, body: Seq<char>) -> Seq<char> {
    header_open() + payload + header_close() + seq!['\n', '\n'] + body
}

/// The members of the header that is written for a note.
pub open spec fn metadata_of(note: NoteView, created_at: Seq<char>, updated_at: Seq<char>) -> Map<
    Seq<char>,
    JsonAtom,
> {
    Map::<Seq<char>, JsonAtom>::empty().insert("title"@, JsonAtom::Text(note.title)).insert(
        "isCollapsed"@,
        JsonAtom::Flag(note.is_collapsed),
    ).insert("order"@, JsonAtom::Integer(note.order)).insert(
        "createdAt"@,
        JsonAtom::Text(created_at),
    ).insert("updatedAt"@, JsonAtom::Text(updated_at))
}

/// `payload` is one line of text that spells a JSON object with exactly
/// these members.
pub open spec fn is_payload(payload: Seq<char>, members: Map<Seq<char>, JsonAtom>) -> bool {
    !payload.contains('\n') && json_document(payload) == Some(members)
}

/// `text` is a file for `note`: a header with the note's metadata and the
/// two time stamps, a blank line, and the note's content as it stands.
pub open spec fn encodes(
    text: Seq<char>,
    note: NoteView,
    created_at: Seq<char>,
    updated_at: Seq<char>,
) -> bool {
    exists|payload: Seq<char>|
        is_payload(payload, metadata_of(note, created_at, updated_at)) && text == #[trigger] framed(
            payload,
            note.content,
        )
}

/// Reads what a header payload says of a note.
pub fn read_header(payload: &str) -> (out: HeaderFields)
    ensures
        out@ == fields_of(json_document(payload@)),
{
    match parse_object(payload) {
        Some(object) => HeaderFields {
            title: text_member(&object, "title"),
            is_collapsed: flag_member(&object, "isCollapsed"),
            order: integer_member(&object, "order"),
            created_at: text_member(&object, "createdAt"),
        },
        None => HeaderFields { title: None, is_collapsed: None, order: None, created_at: None },
    }
}

/// The payload of the header line at the start of `text`, if it has one.
pub fn header_payload(text: &str) -> (out: Option<String>)
    ensures
        match out {
            Some(payload) => lines_of(text@).len() > 0 && is_header(lines_of(text@)[0])
                && payload@ == payload_of(lines_of(text@)[0]),
            None => !(lines_of(text@).len() > 0 && is_header(lines_of(text@)[0])),
        },
{
    let chars = chars_of(text);
    let n = chars.len();
    if n == 0 {
        return None;
    }
    assert(chars@.subrange(0, n as int) =~= text@);
    let (stop, next) = next_line(&chars, 0);
    let open = chars_of("<!-- ");
    let close = chars_of(" -->");
    proof {
        reveal_strlit("<!-- ");
        reveal_strlit(" -->");
        assert(chars@.subrange(0, stop as int).len() == stop);
    }
    if stop >= open.len() + close.len() && starts_with(&chars, 0, stop, &open) && ends_with(
        &chars,
        0,
        stop,
        &close,
    ) {
        let payload = string_of(&chars, open.len(), stop - close.len());
        assert(payload@ =~= payload_of(chars@.subrange(0, stop as int)));
        Some(payload)
    } else {
        None
    }
}

/// What the header of `text` says of the note.
pub fn read_header_of(text: &str) -> (out: HeaderFields)
    ensures
        out@ == header_of(text@),
{
    match header_payload(text) {
        Some(payload) => read_header(payload.as_str()),
        None => HeaderFields { title: None, is_collapsed: None, order: None, created_at: None },
    }
}

/// The order of a note from the integer in its header: the low 32 bits.
pub fn order_from(value: i64) -> (out: i32)
    ensures
        out == value as i32,
{
    #[verifier::truncate]
    (value as i32)
}

/// Decodes the text of a note file, given what the payload of its header
/// says.
pub fn decode_with(text: &str, id: &str, header: &HeaderFields) -> (out: NoteBlock)
    ensures
        out@ == decode_given(text@, id@, header@),
{
    let chars = chars_of(text);
    let n = chars.len();
    let mark = chars_of("# ");
    let open = chars_of("<!-- ");
    let close = chars_of(" -->");
    proof {
        reveal_strlit("<!-- ");
        reveal_strlit(" -->");
        reveal_strlit("# ");
        assert(chars@.subrange(0, n as int) =~= text@);
    }
    if n == 0 {
        return NoteBlock {
            id: id.to_owned(),
            title: "Untitled".to_owned(),
            content: text.to_owned(),
            is_collapsed: false,
            order: 0,
        };
    }
    let (stop, next) = next_line(&chars, 0);
    let ghost lines = lines_of(text@);
    let ghost first = chars@.subrange(0, stop as int);
    assert(lines[0] == first);
    let headed = stop >= open.len() + close.len() && starts_with(&chars, 0, stop, &open)
        && ends_with(&chars, 0, stop, &close);
    let titled = starts_with(&chars, 0, stop, &mark);
    if !headed && !titled {
        return NoteBlock {
            id: id.to_owned(),
            title: "Untitled".to_owned(),
            content: text.to_owned(),
            is_collapsed: false,
            order: 0,
        };
    }
    let mut under: Option<String> = None;
    let mut content = String::new();
    let ghost rest = chars@.subrange(next as int, n as int);
    assert(rest == text@.subrange(after_first_line(text@), text@.len() as int));
    if next < n {
        let (stop2, next2) = next_line(&chars, next);
        let ghost second = chars@.subrange(next as int, stop2 as int);
        let ghost tail = lines_of(chars@.subrange(next2 as int, n as int));
        proof {
            assert(lines =~= seq![first, second] + tail);
            assert(lines[1] == second);
        }
        if starts_with(&chars, next, stop2, &mark) {
            let title = string_of(&chars, next + mark.len(), stop2);
            assert(title@ =~= heading_title(second)->0);
            under = Some(title);
        }
        content = string_of(&chars, next2, n);
        assert(content@ =~= body_of(text@));
    } else {
        proof {
            assert(rest =~= Seq::<char>::empty());
            assert(lines =~= seq![first]);
            assert(content@ =~= body_of(text@));
        }
    }
    if headed {
        let title = match &header.title {
            Some(title) => title.clone(),
            None => match under {
                Some(title) => title,
                None => "Untitled".to_owned(),
            },
        };
        NoteBlock {
            id: id.to_owned(),
            title,
            content,
            is_collapsed: match header.is_collapsed {
                Some(flag) => flag,
                None => false,
            },
            order: match header.order {
                Some(value) => order_from(value),
                None => 0,
            },
        }
    } else {
        let title = string_of(&chars, mark.len(), stop);
        assert(title@ =~= heading_title(first)->0);
        NoteBlock { id: id.to_owned(), title, content, is_collapsed: false, order: 0 }
    }
}

/// Decodes the text of a note file. The id is not in the file: it comes
/// from the file's name.
pub fn decode(text: &str, id: &str) -> (out: NoteBlock)
    ensures
        out@ == decode_spec(text@, id@),
{
    let header = read_header_of(text);
    decode_with(text, id, &header)
}

/// Puts a header payload and a body together as the text of a file.
pub fn frame(payload: &str, body: &str) -> (out: String)
    ensures
        out@ == framed(payload@, body@),
{
    let mut out = "<!-- ".to_owned();
    out.append(payload);
    out.append(" -->");
    out.push('\n');
    out.push('\n');
    out.append(body);
    assert(out@ =~= framed(payload@, body@));
    out
}

/// The text of the file that is written for a note: the header with the
/// JSON text of the note's metadata, a blank line, and the content.
pub open spec fn encoded(note: NoteView, created_at: Seq<char>, updated_at: Seq<char>) -> Seq<
    char,
> {
    framed(json_text(metadata_of(note, created_at, updated_at))->0, note.content)
}

/// Writes the metadata of a note as the payload of a header: the JSON text
/// of an object with the note's title, collapsed flag and order and the two
/// time stamps. There always is such a text; `None` is what an error of the
/// JSON writer would give.
pub fn metadata_payload(block: &NoteBlock, created_at: &str, updated_at: &str) -> (out: Option<
    String,
>)
    ensures
        out is Some,
        match out {
            Some(payload) => json_text(metadata_of(block@, created_at@, updated_at@)) == Some(
                payload@,
            ),
            None => json_text(metadata_of(block@, created_at@, updated_at@)).is_none(),
        },
        out matches Some(payload) ==> is_payload(
            payload@,
            metadata_of(block@, created_at@, updated_at@),
        ),
{
    let mut object = empty_object();
    insert_text(&mut object, "title", block.title.as_str());
    insert_flag(&mut object, "isCollapsed", block.is_collapsed);
    insert_integer(&mut object, "order", block.order as i64);
    insert_text(&mut object, "createdAt", created_at);
    insert_text(&mut object, "updatedAt", updated_at);
    assert(holds_atoms_only(metadata_of(block@, created_at@, updated_at@)));
    render_object(&object)
}

/// Encodes a note as the text of its file. Every note has one: the result
/// is never an error.
pub fn encode(block: &NoteBlock, created_at: &str, updated_at: &str) -> (out: Result<
    String,
    NoteError,
>)
    ensures
        out is Ok,
        (out is Err) <==> json_text(metadata_of(block@, created_at@, updated_at@)) is None,
        out matches Ok(text) ==> text@ == encoded(block@, created_at@, updated_at@) && encodes(
            text@,
            block@,
            created_at@,
            updated_at@,
        ),
{
    match metadata_payload(block, created_at, updated_at) {
        Some(payload) => {
            let text = frame(payload.as_str(), block.content.as_str());
            assert(text@ == framed(payload@, block@.content));
            Ok(text)
        },
        None => Err(NoteError::Metadata),
    }
}

/// The first line of `text` is a header whose payload spells a JSON object.
pub open spec fn has_object_header(text: Seq<char>) -> bool {
    let lines = lines_of(text);
    lines.len() > 0 && is_header(lines[0]) && json_document(payload_of(lines[0])) is Some
}

/// The members of the JSON object in the header of `text`.
pub open spec fn header_members(text: Seq<char>) -> Map<Seq<char>, JsonAtom> {
    json_document(payload_of(lines_of(text)[0]))->0
}

/// `text` with a header of the given payload in place of its first line.
/// What follows the first line stays as it is, character by character.
pub open spec fn with_header(text: Seq<char>, payload: Seq<char>) -> Seq<char> {
    header_open() + payload + header_close() + text.subrange(line_end(text), text.len() as int)
}

/// The members of a header after its note was given a new order: `order` and
/// `updatedAt` are set, every other member is as before.
pub open spec fn reordered_members(
    members: Map<Seq<char>, JsonAtom>,
    order: int,
    now: Seq<char>,
) -> Map<Seq<char>, JsonAtom> {
    members.insert("order"@, JsonAtom::Integer(order)).insert("updatedAt"@, JsonAtom::Text(now))
}

/// `out` is `text` with the order of its note set to `order` at the time
/// `now`: only the header differs, and there only `order` and `updatedAt`.
pub open spec fn reorders(text: Seq<char>, order: int, now: Seq<char>, out: Seq<char>) -> bool {
    &&& has_object_header(text)
    &&& exists|payload: Seq<char>|
        is_payload(payload, reordered_members(header_members(text), order, now)) && out
            == #[trigger] with_header(text, payload)
}

/// Puts a header with the given payload in place of the first line of `text`.
pub fn replace_header(text: &str, payload: &str) -> (out: String)
    ensures
        out@ == with_header(text@, payload@),
{
    let chars = chars_of(text);
    let end = first_line_end(&chars);
    proof {
        lemma_line_end(chars@);
    }
    let mut out = "<!-- ".to_owned();
    out.append(payload);
    out.append(" -->");
    push_chars(&mut out, &chars, end, chars.len());
    assert(out@ =~= with_header(text@, payload@));
    out
}

/// Sets the order of the note in a file's text, and the time of the change.
/// A text without a header that spells a JSON object is left alone: the
/// result is `None`. Every other text is changed: the result is never an
/// error. Where the header holds strings, booleans and integers only, the
/// new header is the JSON text of its members with the two that are set.
pub fn reorder_text(text: &str, order: i32, now: &str) -> (out: Result<Option<String>, NoteError>)
    ensures
        out is Ok,
        out matches Ok(Some(changed)) ==> reorders(text@, order as int, now@, changed@),
        out matches Ok(None) ==> !has_object_header(text@),
        has_object_header(text@) && holds_atoms_only(header_members(text@)) ==> ({
            let members = reordered_members(header_members(text@), order as int, now@);
            &&& ((out is Err) <==> json_text(members) is None)
            &&& out matches Ok(Some(changed)) && changed@ == with_header(
                text@,
                json_text(members)->0,
            )
        }),
{
    let payload = match header_payload(text) {
        Some(payload) => payload,
        None => {
            return Ok(None);
        },
    };
    let mut object = match parse_object(payload.as_str()) {
        Some(object) => object,
        None => {
            return Ok(None);
        },
    };
    insert_integer(&mut object, "order", order as i64);
    insert_text(&mut object, "updatedAt", now);
    proof {
        let before = header_members(text@);
        if holds_atoms_only(before) {
            assert(holds_atoms_only(reordered_members(before, order as int, now@)));
        }
    }
    match render_object(&object) {
        Some(rendered) => {
            let changed = replace_header(text, rendered.as_str());
            assert(changed@ == with_header(text@, rendered@));
            Ok(Some(changed))
        },
        None => Err(NoteError::Metadata),
    }
}

/// The parts of a framed file: its first line is the header, the payload
/// of that header is the payload that was framed, and its body is the body
/// that was framed, as it stands.
pub proof fn lemma_framed_parts(payload: Seq<char>, body: Seq<char>)
    requires
        !payload.contains('\n'),
    ensures
        lines_of(framed(payload, body)).len() > 0,
        lines_of(framed(payload, body))[0] == header_open() + payload + header_close(),
        is_header(header_open() + payload + header_close()),
        payload_of(header_open() + payload + header_close()) == payload,
        body_of(framed(payload, body)) == body,
{
    reveal_strlit("<!-- ");
    reveal_strlit(" -->");
    let header = header_open() + payload + header_close();
    let under = seq!['\n'] + body;
    let text = framed(payload, body);
    assert(text =~= header + seq!['\n'] + under);
    assert forall|k: int| 0 <= k < header.len() implies header[k] != '\n' by {
        if header_open().len() <= k < header_open().len() + payload.len() {
            assert(payload.contains(payload[k - header_open().len()]));
        }
    }
    assert(!header.contains('\n'));
    lemma_lines_of_first(header, under);
    assert forall|k: int| 0 <= k < header.len() implies text[k] != '\n' by {
        assert(text[k] == header[k]);
    }
    lemma_line_end_is(text, header.len() as int);
    let rest = text.subrange(after_first_line(text), text.len() as int);
    assert(rest =~= under);
    lemma_line_end_is(rest, 0);
    assert(rest.subrange(1, rest.len() as int) =~= body);
    assert(header.subrange(0, header_open().len() as int) =~= header_open());
    assert(header.subrange(header.len() - header_close().len(), header.len() as int)
        =~= header_close());
    assert(payload_of(header) =~= payload);
}

/// The file of a note starts with a header that spells a JSON object, and
/// the header names the time of creation that was encoded.
pub proof fn lemma_encoded_header(
    text: Seq<char>,
    note: NoteView,
    created_at: Seq<char>,
    updated_at: Seq<char>,
)
    requires
        encodes(text, note, created_at, updated_at),
    ensures
        has_object_header(text),
        header_members(text) == metadata_of(note, created_at, updated_at),
        header_of(text).created_at == Some(created_at),
{
    let payload = choose|payload: Seq<char>|
        is_payload(payload, metadata_of(note, created_at, updated_at)) && text == #[trigger] framed(
            payload,
            note.content,
        );
    lemma_framed_parts(payload, note.content);
    reveal_strlit("createdAt");
    reveal_strlit("updatedAt");
    assert("createdAt"@[0] != "updatedAt"@[0]);
}

/// Decoding the file of a note gives the note back, under the id that the
/// file is read as: its title, its content as it stands, its collapsed flag
/// and its order. The time stamps of the file play no part.
pub proof fn lemma_decode_encoded(
    text: Seq<char>,
    id: Seq<char>,
    note: NoteView,
    created_at: Seq<char>,
    updated_at: Seq<char>,
)
    requires
        encodes(text, note, created_at, updated_at),
        i32::MIN <= note.order <= i32::MAX,
    ensures
        decode_spec(text, id) == (NoteView { id, ..note }),
{
    let payload = choose|payload: Seq<char>|
        is_payload(payload, metadata_of(note, created_at, updated_at)) && text == #[trigger] framed(
            payload,
            note.content,
        );
    lemma_framed_parts(payload, note.content);
    reveal_strlit("title");
    reveal_strlit("isCollapsed");
    reveal_strlit("order");
    reveal_strlit("createdAt");
    reveal_strlit("updatedAt");
    assert("title"@[0] != "order"@[0]);
    assert("createdAt"@[0] != "updatedAt"@[0]);
    let members = metadata_of(note, created_at, updated_at);
    assert(member_text(members, "title"@) == Some(note.title));
    assert(member_flag(members, "isCollapsed"@) == Some(note.is_collapsed));
    assert(member_integer(members, "order"@) == Some(note.order));
}

/// Encoding a note and decoding the file under the note's id gives the note
/// back, whatever its title and content hold.
pub proof fn lemma_round_trip(
    text: Seq<char>,
    note: NoteView,
    created_at: Seq<char>,
    updated_at: Seq<char>,
)
    requires
        encodes(text, note, created_at, updated_at),
        i32::MIN <= note.order <= i32::MAX,
    ensures
        decode_spec(text, note.id) == note,
{
    lemma_decode_encoded(text, note.id, note, created_at, updated_at);
}

/// Giving a note a new order changes nothing else of it: the file decodes
/// to the same title, content and collapsed flag as before, with the new
/// order, and the header still names the same time of creation.
pub proof fn lemma_reorder_keeps_note(
    text: Seq<char>,
    id: Seq<char>,
    order: int,
    now: Seq<char>,
    out: Seq<char>,
)
    requires
        reorders(text, order, now, out),
        i32::MIN <= order <= i32::MAX,
    ensures
        decode_spec(out, id) == (NoteView { order, ..decode_spec(text, id) }),
        header_of(out).created_at == header_of(text).created_at,
        has_object_header(out),
{
    let payload = choose|payload: Seq<char>|
        is_payload(payload, reordered_members(header_members(text), order, now)) && out
            == #[trigger] with_header(text, payload);
    reveal_strlit("<!-- ");
    reveal_strlit(" -->");
    reveal_strlit("title");
    reveal_strlit("isCollapsed");
    reveal_strlit("order");
    reveal_strlit("createdAt");
    reveal_strlit("updatedAt");
    let header = header_open() + payload + header_close();
    let end = line_end(text);
    lemma_line_end(text);
    assert forall|k: int| 0 <= k < header.len() implies header[k] != '\n' by {
        if header_open().len() <= k < header_open().len() + payload.len() {
            assert(payload.contains(payload[k - header_open().len()]));
        }
    }
    assert(!header.contains('\n'));
    let old_lines = lines_of(text);
    let new_lines = lines_of(out);
    if end < text.len() {
        let rest = text.subrange(end + 1, text.len() as int);
        assert(out =~= header + seq!['\n'] + rest);
        lemma_lines_of_first(header, rest);
        assert(new_lines =~= seq![header] + lines_of(rest));
        assert(old_lines =~= seq![old_lines[0]] + lines_of(rest));
        if lines_of(rest).len() > 0 {
            assert(new_lines[1] == old_lines[1]);
        }
        assert forall|k: int| 0 <= k < header.len() implies out[k] != '\n' by {
            assert(out[k] == header[k]);
        }
        lemma_line_end_is(out, header.len() as int);
        assert(out.subrange(after_first_line(out), out.len() as int) =~= rest);
        assert(text.subrange(after_first_line(text), text.len() as int) =~= rest);
    } else {
        assert(out =~= header);
        lemma_line_end_is(header, header.len() as int);
        assert(new_lines =~= seq![header]);
        assert(old_lines =~= seq![text]);
        assert(out.subrange(after_first_line(out), out.len() as int) =~= Seq::<char>::empty());
        assert(text.subrange(after_first_line(text), text.len() as int)
            =~= Seq::<char>::empty());
    }
    assert(new_lines[0] == header);
    assert(header.subrange(0, header_open().len() as int) =~= header_open());
    assert(header.subrange(header.len() - header_close().len(), header.len() as int)
        =~= header_close());
    assert(payload_of(header) =~= payload);
    assert("title"@[0] != "order"@[0]);
    assert("title"@[0] != "updatedAt"@[0]);
    assert("createdAt"@[0] != "updatedAt"@[0]);
    assert("createdAt"@[0] != "order"@[0]);
}

/// A file without a header whose first line is a heading decodes to the
/// title of that heading, not collapsed, with order 0.
pub proof fn lemma_decode_heading(text: Seq<char>, id: Seq<char>)
    requires
        lines_of(text).len() > 0,
        !is_header(lines_of(text)[0]),
        is_prefix(heading_mark(), lines_of(text)[0]),
    ensures
        decode_spec(text, id).title == lines_of(text)[0].subrange(
            heading_mark().len() as int,
            lines_of(text)[0].len() as int,
        ),
        decode_spec(text, id).order == 0,
        !decode_spec(text, id).is_collapsed,
        decode_spec(text, id).id == id,
{
}

} // verus!
