//! Plain text from Markdown: titles and snippets.

use crate::text::{
    chars_of, glue, is_space, joined, law_trimmed_end_is_white_space,
    law_trimmed_text_is_the_middle, lemma_trim_start, lines, lines_of, start_of_text, starts_with,
    string_of_range, trim, trim_end, trim_end_of, trim_start, trimmed, views,
};
use pulldown_cmark::{Event, Parser, Tag, TagEnd};
use vstd::prelude::*;

verus! {

/// A piece of a Markdown text, as far as plain text is concerned.
#[derive(Debug)]
pub enum MarkdownEvent {
    Text(String),
    Code(String),
    SoftBreak,
    HardBreak,
    ImageStart,
    ImageEnd,
    Other,
}

/// What a piece holds.
pub enum EventView {
    Text(Seq<char>),
    Code(Seq<char>),
    SoftBreak,
    HardBreak,
    ImageStart,
    ImageEnd,
    Other,
}

impl View for MarkdownEvent {
    type V = EventView;

    open spec fn view(&self) -> EventView {
        match self {
            MarkdownEvent::Text(t) => EventView::Text(t@),
            MarkdownEvent::Code(t) => EventView::Code(t@),
            MarkdownEvent::SoftBreak => EventView::SoftBreak,
            MarkdownEvent::HardBreak => EventView::HardBreak,
            MarkdownEvent::ImageStart => EventView::ImageStart,
            MarkdownEvent::ImageEnd => EventView::ImageEnd,
            MarkdownEvent::Other => EventView::Other,
        }
    }
}

/// What pieces hold.
pub open spec fn event_views(events: Seq<MarkdownEvent>) -> Seq<EventView> {
    events.map_values(|e: MarkdownEvent| e@)
}

/// The pieces of a Markdown text.
pub uninterp spec fn markdown_events(text: Seq<char>) -> Seq<EventView>;

/// The pieces of a Markdown text: the events of `pulldown_cmark::Parser::new`, in order, which
/// are a function of the text. What is not text, code, a break or an image is told apart no
/// further.
#[verifier::external_body]
fn parse_markdown(text: &str) -> (r: Vec<MarkdownEvent>)
    ensures
        event_views(r@) == markdown_events(text@),
{
    Parser::new(text).map(
        |event| match event {
            Event::Text(t) => MarkdownEvent::Text(t.into_string()),
            Event::Code(t) => MarkdownEvent::Code(t.into_string()),
            Event::SoftBreak => MarkdownEvent::SoftBreak,
            Event::HardBreak => MarkdownEvent::HardBreak,
            Event::Start(Tag::Image { .. }) => MarkdownEvent::ImageStart,
            Event::End(TagEnd::Image) => MarkdownEvent::ImageEnd,
            _ => MarkdownEvent::Other,
        },
    ).collect()
}

/// The plain text of pieces: text and code as they are, a blank for a break, and nothing of an
/// image. `skip` says whether the pieces start inside an image.
pub open spec fn plain_text(events: Seq<EventView>, skip: bool) -> Seq<char>
    decreases events.len(),
{
    if events.len() == 0 {
        Seq::empty()
    } else {
        let rest = events.drop_first();
        match events[0] {
            EventView::ImageStart => plain_text(rest, true),
            EventView::ImageEnd => plain_text(rest, false),
            EventView::Text(t) => if skip {
                plain_text(rest, skip)
            } else {
                t + plain_text(rest, skip)
            },
            EventView::Code(t) => if skip {
                plain_text(rest, skip)
            } else {
                t + plain_text(rest, skip)
            },
            EventView::SoftBreak | EventView::HardBreak => if skip {
                plain_text(rest, skip)
            } else {
                seq![' '] + plain_text(rest, skip)
            },
            EventView::Other => plain_text(rest, skip),
        }
    }
}

/// The plain text of pieces.
pub fn text_of_events(events: &Vec<MarkdownEvent>) -> (r: String)
    ensures
        r@ == plain_text(event_views(events@), false),
{
    let ghost all = event_views(events@);
    let mut out = String::new();
    let mut skip: bool = false;
    let mut i: usize = 0;
    assert(all.skip(0) =~= all);
    assert(Seq::<char>::empty() + plain_text(all, false) =~= plain_text(all, false));
    while i < events.len()
        invariant
            i <= events@.len(),
            all == event_views(events@),
            out@ + plain_text(all.skip(i as int), skip) == plain_text(all, false),
        decreases events@.len() - i,
    {
        let ghost before = out@;
        let ghost rest = all.skip(i + 1);
        let ghost was = skip;
        assert(all.skip(i as int).drop_first() =~= rest);
        assert(all.skip(i as int)[0] == events@[i as int]@);
        match &events[i] {
            MarkdownEvent::ImageStart => {
                skip = true;
            },
            MarkdownEvent::ImageEnd => {
                skip = false;
            },
            MarkdownEvent::Text(t) => {
                if !skip {
                    out.append(t.as_str());
                    assert(before + (t@ + plain_text(rest, skip)) =~= out@ + plain_text(
                        rest,
                        skip,
                    ));
                }
            },
            MarkdownEvent::Code(t) => {
                if !skip {
                    out.append(t.as_str());
                    assert(before + (t@ + plain_text(rest, skip)) =~= out@ + plain_text(
                        rest,
                        skip,
                    ));
                }
            },
            MarkdownEvent::SoftBreak => {
                if !skip {
                    out.push(' ');
                    assert(before + (seq![' '] + plain_text(rest, skip)) =~= out@ + plain_text(
                        rest,
                        skip,
                    ));
                }
            },
            MarkdownEvent::HardBreak => {
                if !skip {
                    out.push(' ');
                    assert(before + (seq![' '] + plain_text(rest, skip)) =~= out@ + plain_text(
                        rest,
                        skip,
                    ));
                }
            },
            MarkdownEvent::Other => {},
        }
        i = i + 1;
    }
    assert(all.skip(i as int) =~= Seq::empty());
    assert(out@ + Seq::<char>::empty() =~= out@);
    out
}

/// The plain text of a Markdown text.
pub open spec fn stripped(text: Seq<char>) -> Seq<char> {
    plain_text(markdown_events(text), false)
}

/// The plain text of a Markdown text: images are dropped, links keep their text.
pub fn strip_inline_markdown(text: &str) -> (r: String)
    ensures
        r@ == stripped(text@),
{
    let events = parse_markdown(text);
    text_of_events(&events)
}

/// A character of a horizontal rule.
pub open spec fn is_rule_char(c: char) -> bool {
    c == '-' || c == '*' || c == '_' || c == ' '
}

/// Whether a line holds no text: a code fence, an image, a horizontal rule or a bare URL.
pub open spec fn holds_no_text(line: Seq<char>) -> bool {
    ||| "```"@.is_prefix_of(line)
    ||| "!["@.is_prefix_of(line)
    ||| line.len() >= 3 && forall|i: int| 0 <= i < line.len() ==> is_rule_char(#[trigger] line[i])
    ||| ("http://"@.is_prefix_of(line) || "https://"@.is_prefix_of(line)) && !line.contains(' ')
}

/// Whether a trimmed line holds no text.
pub fn is_non_text_line(trimmed: &str) -> (r: bool)
    ensures
        r == holds_no_text(trimmed@),
{
    let cs = chars_of(trimmed);
    let mut rule: bool = true;
    let mut blank: bool = false;
    let mut i: usize = 0;
    while i < cs.len()
        invariant
            i <= cs@.len(),
            rule == forall|j: int| 0 <= j < i ==> is_rule_char(#[trigger] cs@[j]),
            blank == exists|j: int| 0 <= j < i && cs@[j] == ' ',
        decreases cs@.len() - i,
    {
        let c = cs[i];
        if !(c == '-' || c == '*' || c == '_' || c == ' ') {
            assert(!is_rule_char(cs@[i as int]));
            rule = false;
        }
        if c == ' ' {
            assert(cs@[i as int] == ' ');
            blank = true;
        }
        i = i + 1;
    }
    proof {
        if trimmed@.contains(' ') {
            let j = choose|j: int| 0 <= j < trimmed@.len() && trimmed@[j] == ' ';
            assert(cs@[j] == ' ');
        }
    }
    starts_with(trimmed, "```") || starts_with(trimmed, "![") || (rule && cs.len() >= 3) || ((
    starts_with(trimmed, "http://") || starts_with(trimmed, "https://")) && !blank)
}

/// A line without the hashes that begin it.
pub open spec fn without_hashes(s: Seq<char>) -> Seq<char>
    decreases s.len(),
{
    if s.len() > 0 && s[0] == '#' {
        without_hashes(s.drop_first())
    } else {
        s
    }
}

/// A line without its heading marker.
pub open spec fn without_heading(s: Seq<char>) -> Seq<char> {
    if s.len() > 0 && s[0] == '#' {
        trim_start(without_hashes(s))
    } else {
        s
    }
}

fn strip_heading(s: &str) -> (r: String)
    ensures
        r@ == without_heading(s@),
{
    let cs = chars_of(s);
    if cs.len() == 0 || cs[0] != '#' {
        return s.to_owned();
    }
    let mut from: usize = 0;
    assert(cs@.skip(0) =~= cs@);
    while from < cs.len() && cs[from] == '#'
        invariant
            from <= cs@.len(),
            without_hashes(cs@) == without_hashes(cs@.skip(from as int)),
        decreases cs@.len() - from,
    {
        assert(cs@.skip(from as int).drop_first() =~= cs@.skip(from + 1));
        from = from + 1;
    }
    let tail = string_of_range(cs.as_slice(), from, cs.len());
    assert(tail@ =~= cs@.skip(from as int));
    let ts = chars_of(tail.as_str());
    let lo: usize = start_of_text(ts.as_slice());
    let r = string_of_range(ts.as_slice(), lo, ts.len());
    assert(r@ =~= ts@.skip(lo as int));
    r
}

/// The plain texts of the lines that have any, none of them empty. Fences and what stands between
/// them are passed over, and so are lines that hold no text. `fenced` says whether the lines
/// start behind a fence.
pub open spec fn plain_lines(lines: Seq<Seq<char>>, fenced: bool) -> Seq<Seq<char>>
    decreases lines.len(),
{
    if lines.len() == 0 {
        Seq::empty()
    } else {
        let line = trimmed(lines[0]);
        let rest = lines.drop_first();
        if "```"@.is_prefix_of(line) {
            plain_lines(rest, !fenced)
        } else if line.len() == 0 || fenced || holds_no_text(line) {
            plain_lines(rest, fenced)
        } else {
            let plain = trimmed(stripped(without_heading(line)));
            if plain.len() == 0 {
                plain_lines(rest, fenced)
            } else {
                seq![plain] + plain_lines(rest, fenced)
            }
        }
    }
}

/// The texts, one behind the other with blanks between them, up to the one that brings them to
/// `max` characters; `sofar` stands before them.
pub open spec fn gathered(sofar: Seq<char>, texts: Seq<Seq<char>>, max: nat) -> Seq<char>
    decreases texts.len(),
{
    if texts.len() == 0 {
        sofar
    } else {
        let more = if sofar.len() == 0 {
            texts[0]
        } else {
            sofar + seq![' '] + texts[0]
        };
        if more.len() >= max {
            more
        } else {
            gathered(more, texts.drop_first(), max)
        }
    }
}

/// A text that has more than `max` characters is cut, so that what is left and the mark of the cut
/// have no more than that; where the mark alone has more, the cut goes unmarked.
pub open spec fn cut(s: Seq<char>, max: nat) -> Seq<char> {
    if s.len() <= max {
        s
    } else if max >= 3 {
        trim_end(s.take(max - 3)) + "..."@
    } else {
        trim_end(s.take(max as int))
    }
}

/// The title that plain texts give: the first of them.
pub open spec fn title_of(texts: Seq<Seq<char>>) -> Seq<char> {
    if texts.len() == 0 {
        Seq::empty()
    } else {
        texts[0]
    }
}

/// The snippet that plain texts give: what follows the first of them.
pub open spec fn snippet_of(texts: Seq<Seq<char>>, max: nat) -> Seq<char> {
    if texts.len() == 0 {
        Seq::empty()
    } else {
        cut(gathered(Seq::empty(), texts.drop_first(), max), max)
    }
}

fn cut_to(s: String, max: usize) -> (r: String)
    ensures
        r@ == cut(s@, max as nat),
{
    let cs = chars_of(s.as_str());
    if cs.len() <= max {
        return s;
    }
    if max >= 3 {
        let head = string_of_range(cs.as_slice(), 0, max - 3);
        assert(head@ =~= s@.take(max - 3));
        glue(trim_end_of(head.as_str()).as_str(), "...")
    } else {
        let head = string_of_range(cs.as_slice(), 0, max);
        assert(head@ =~= s@.take(max as int));
        trim_end_of(head.as_str())
    }
}

fn add_to(snippet: &mut String, text: &str)
    ensures
        final(snippet)@ == if old(snippet)@.len() == 0 {
            text@
        } else {
            old(snippet)@ + seq![' '] + text@
        },
{
    if !snippet.as_str().is_empty() {
        snippet.push(' ');
        assert(snippet@ =~= old(snippet)@ + seq![' ']);
    } else {
        assert(Seq::<char>::empty() + text@ =~= text@);
    }
    snippet.append(text);
}

/// The title and the snippet that plain texts give.
pub fn title_and_snippet(texts: &Vec<String>, max_snippet_len: usize) -> (r: (String, String))
    ensures
        r.0@ == title_of(views(texts@)),
        r.1@ == snippet_of(views(texts@), max_snippet_len as nat),
        r.1@.len() <= max_snippet_len,
{
    let ghost all = views(texts@);
    let ghost max = max_snippet_len as nat;
    if texts.len() == 0 {
        return (String::new(), String::new());
    }
    assert(all[0] == texts@[0]@);
    let title = texts[0].clone();
    let mut snippet = String::new();
    let mut i: usize = 1;
    assert(all.skip(1) =~= all.drop_first());
    let mut done: bool = false;
    while i < texts.len() && !done
        invariant
            1 <= i <= texts@.len(),
            all == views(texts@),
            max == max_snippet_len as nat,
            done ==> snippet@ == gathered(Seq::empty(), all.drop_first(), max),
            !done ==> gathered(snippet@, all.skip(i as int), max) == gathered(
                Seq::empty(),
                all.drop_first(),
                max,
            ),
        decreases texts@.len() - i,
    {
        assert(all.skip(i as int)[0] == texts@[i as int]@);
        assert(all.skip(i as int).drop_first() =~= all.skip(i + 1));
        add_to(&mut snippet, texts[i].as_str());
        if snippet.as_str().unicode_len() >= max_snippet_len {
            done = true;
        }
        i = i + 1;
    }
    proof {
        if !done {
            assert(all.skip(i as int) =~= Seq::empty());
        }
        law_snippet_is_short(all, max);
    }
    (title, cut_to(snippet, max_snippet_len))
}

fn plain_lines_in(content: &str) -> (r: Vec<String>)
    ensures
        views(r@) == plain_lines(lines_of(content@), false),
{
    let list = lines(content);
    let ghost all = views(list@);
    let mut texts: Vec<String> = Vec::new();
    let mut fenced: bool = false;
    let mut i: usize = 0;
    assert(all.skip(0) =~= all);
    assert(views(texts@) + plain_lines(all, false) =~= plain_lines(all, false));
    while i < list.len()
        invariant
            i <= list@.len(),
            all == views(list@),
            views(texts@) + plain_lines(all.skip(i as int), fenced) == plain_lines(all, false),
        decreases list@.len() - i,
    {
        let ghost before = views(texts@);
        let ghost rest = all.skip(i + 1);
        assert(all.skip(i as int)[0] == list@[i as int]@);
        assert(all.skip(i as int).drop_first() =~= rest);
        let line = trim(list[i].as_str());
        i = i + 1;
        if starts_with(line.as_str(), "```") {
            fenced = !fenced;
        } else if !line.as_str().is_empty() && !fenced && !is_non_text_line(line.as_str()) {
            let bare = strip_heading(line.as_str());
            let plain = trim(strip_inline_markdown(bare.as_str()).as_str());
            if !plain.as_str().is_empty() {
                let ghost text = plain@;
                let ghost tail = plain_lines(rest, fenced);
                texts.push(plain);
                assert(views(texts@) =~= before.push(text));
                assert(before + (seq![text] + tail) =~= views(texts@) + tail);
            }
        }
    }
    assert(all.skip(i as int) =~= Seq::empty());
    assert(views(texts@) + Seq::<Seq<char>>::empty() =~= views(texts@));
    texts
}

/// The plain-text title of a Markdown text, which is its first line with any text, and a snippet
/// of what follows it, which has at most `max_snippet_len` characters. Images, bare URLs, fenced
/// code and rules are in neither.
pub fn extract_title_and_snippet(content: &str, max_snippet_len: usize) -> (r: (String, String))
    ensures
        r.0@ == title_of(plain_lines(lines_of(content@), false)),
        r.1@ == snippet_of(plain_lines(lines_of(content@), false), max_snippet_len as nat),
        r.1@.len() <= max_snippet_len,
{
    let texts = plain_lines_in(content);
    title_and_snippet(&texts, max_snippet_len)
}

/// A snippet has at most `max` characters, the mark of a cut included.
pub proof fn law_snippet_is_short(texts: Seq<Seq<char>>, max: nat)
    ensures
        snippet_of(texts, max).len() <= max,
{
    if texts.len() > 0 {
        let raw = gathered(Seq::empty(), texts.drop_first(), max);
        reveal_strlit("...");
        if raw.len() > max {
            lemma_trim_end_len(raw.take(max as int));
            if max >= 3 {
                lemma_trim_end_len(raw.take(max - 3));
            }
        }
    }
}

proof fn lemma_trim_end_len(s: Seq<char>)
    ensures
        trim_end(s).len() <= s.len(),
    decreases s.len(),
{
    if s.len() > 0 {
        lemma_trim_end_len(s.drop_last());
    }
}

/// Whether a piece is no beginning and no end of an image.
pub open spec fn is_no_image(e: EventView) -> bool {
    !(e is ImageStart) && !(e is ImageEnd)
}

/// The plain text of pieces without images is that of the ones before followed by that of the ones
/// behind, wherever they are parted.
pub proof fn law_plain_texts_add_up(a: Seq<EventView>, b: Seq<EventView>)
    requires
        forall|i: int| 0 <= i < a.len() ==> is_no_image(#[trigger] a[i]),
    ensures
        plain_text(a + b, false) == plain_text(a, false) + plain_text(b, false),
    decreases a.len(),
{
    if a.len() == 0 {
        assert(a + b =~= b);
        assert(plain_text(a, false) + plain_text(b, false) =~= plain_text(b, false));
    } else {
        let rest = a.drop_first();
        assert forall|i: int| 0 <= i < rest.len() implies is_no_image(#[trigger] rest[i]) by {
            assert(is_no_image(a[i + 1]));
        }
        assert((a + b).drop_first() =~= rest + b);
        assert((a + b)[0] == a[0]);
        assert(is_no_image(a[0]));
        law_plain_texts_add_up(rest, b);
        assert(plain_text(a + b, false) =~= plain_text(a, false) + plain_text(b, false));
    }
}

/// Text and code stand in the plain text as they are, a break is a blank, and other pieces are
/// nothing.
pub proof fn law_single_pieces_are_told(e: EventView)
    ensures
        e matches EventView::Text(t) ==> plain_text(seq![e], false) == t,
        e matches EventView::Code(t) ==> plain_text(seq![e], false) == t,
        e is SoftBreak || e is HardBreak ==> plain_text(seq![e], false) == seq![' '],
        e is Other ==> plain_text(seq![e], false).len() == 0,
        plain_text(Seq::empty(), false).len() == 0,
{
    assert(seq![e].drop_first() =~= Seq::empty());
    reveal_with_fuel(plain_text, 2);
    if e is Text || e is Code {
        assert(plain_text(seq![e], false) =~= match e {
            EventView::Text(t) => t,
            EventView::Code(t) => t,
            _ => Seq::empty(),
        });
    }
    if e is SoftBreak || e is HardBreak {
        assert(plain_text(seq![e], false) =~= seq![' ']);
    }
}

/// Nothing of an image is in the plain text, whatever pieces it has.
pub proof fn law_images_are_dropped(inner: Seq<EventView>, b: Seq<EventView>)
    requires
        forall|i: int| 0 <= i < inner.len() ==> !((#[trigger] inner[i]) is ImageEnd),
    ensures
        plain_text(
            seq![EventView::ImageStart] + inner + seq![EventView::ImageEnd] + b,
            false,
        ) == plain_text(b, false),
{
    let all = seq![EventView::ImageStart] + inner + seq![EventView::ImageEnd] + b;
    assert(all.drop_first() =~= inner + seq![EventView::ImageEnd] + b);
    lemma_rest_of_image(inner, b);
}

proof fn lemma_rest_of_image(inner: Seq<EventView>, b: Seq<EventView>)
    requires
        forall|i: int| 0 <= i < inner.len() ==> !((#[trigger] inner[i]) is ImageEnd),
    ensures
        plain_text(inner + seq![EventView::ImageEnd] + b, true) == plain_text(b, false),
    decreases inner.len(),
{
    let all = inner + seq![EventView::ImageEnd] + b;
    if inner.len() == 0 {
        assert(all.drop_first() =~= b);
    } else {
        let rest = inner.drop_first();
        assert forall|i: int| 0 <= i < rest.len() implies !((#[trigger] rest[i]) is ImageEnd) by {
            assert(!(inner[i + 1] is ImageEnd));
        }
        assert(all.drop_first() =~= rest + seq![EventView::ImageEnd] + b);
        assert(all[0] == inner[0]);
        lemma_rest_of_image(rest, b);
    }
}

/// A line holds no text if it begins a code fence or an image, if it is a rule of three or more
/// dashes, stars, underscores and blanks, or if it is a URL without a blank; any other line does.
pub proof fn law_lines_without_text(line: &str, r: bool)
    requires
        call_ensures(is_non_text_line, (line,), r),
    ensures
        "```"@.is_prefix_of(line@) || "!["@.is_prefix_of(line@) ==> r,
        line@.len() >= 3 && (forall|i: int|
            0 <= i < line@.len() ==> seq!['-', '*', '_', ' '].contains(#[trigger] line@[i])) ==> r,
        ("http://"@.is_prefix_of(line@) || "https://"@.is_prefix_of(line@)) && (forall|i: int|
            0 <= i < line@.len() ==> #[trigger] line@[i] != ' ') ==> r,
        r ==> "```"@.is_prefix_of(line@) || "!["@.is_prefix_of(line@) || "http://"@.is_prefix_of(
            line@,
        ) || "https://"@.is_prefix_of(line@) || line@.len() >= 3 && forall|i: int|
            0 <= i < line@.len() ==> seq!['-', '*', '_', ' '].contains(#[trigger] line@[i]),
        line@.contains('h') && line@.contains(' ') && !("```"@.is_prefix_of(line@))
            && !("!["@.is_prefix_of(line@)) ==> !r,
{
    let marks = seq!['-', '*', '_', ' '];
    assert(marks[0] == '-' && marks[1] == '*' && marks[2] == '_' && marks[3] == ' ');
    assert forall|c: char| #[trigger] marks.contains(c) == is_rule_char(c) by {
        if is_rule_char(c) {
            if c == '-' {
                assert(marks[0] == c);
            } else if c == '*' {
                assert(marks[1] == c);
            } else if c == '_' {
                assert(marks[2] == c);
            } else {
                assert(marks[3] == c);
            }
        }
    }
    if forall|i: int| 0 <= i < line@.len() ==> marks.contains(#[trigger] line@[i]) {
        assert forall|i: int| 0 <= i < line@.len() implies is_rule_char(#[trigger] line@[i]) by {
            assert(marks.contains(line@[i]));
        }
    }
    if forall|i: int| 0 <= i < line@.len() ==> is_rule_char(#[trigger] line@[i]) {
        assert forall|i: int| 0 <= i < line@.len() implies marks.contains(#[trigger] line@[i]) by {
            assert(is_rule_char(line@[i]));
        }
    }
    if line@.contains('h') {
        let i = line@.index_of('h');
        assert(!is_rule_char(line@[i]));
    }
}

/// Of a heading its hashes and the white space behind them are dropped, and nothing else; a line
/// that is no heading stays.
pub proof fn law_headings_lose_their_marker(s: Seq<char>) -> (r: (int, int))
    ensures
        0 <= r.0 <= r.1 <= s.len(),
        without_heading(s) == s.skip(r.1),
        forall|i: int| 0 <= i < r.0 ==> #[trigger] s[i] == '#',
        forall|i: int| r.0 <= i < r.1 ==> is_space(#[trigger] s[i]),
        r.0 < s.len() ==> s[r.0] != '#',
        r.0 > 0 && r.1 < s.len() ==> !is_space(s[r.1]),
        r.0 == 0 ==> r.1 == 0,
{
    let h = lemma_without_hashes(s);
    if h > 0 {
        let rest = s.skip(h);
        let lo = lemma_trim_start(rest);
        assert(rest.skip(lo) =~= s.skip(h + lo));
        assert forall|i: int| h <= i < h + lo implies is_space(#[trigger] s[i]) by {
            assert(is_space(rest[i - h]));
        }
        if h + lo < s.len() {
            assert(rest[lo] == s[h + lo]);
        }
        (h, h + lo)
    } else {
        assert(s.skip(0) =~= s);
        (0, 0)
    }
}

proof fn lemma_without_hashes(s: Seq<char>) -> (h: int)
    ensures
        0 <= h <= s.len(),
        without_hashes(s) == s.skip(h),
        forall|i: int| 0 <= i < h ==> #[trigger] s[i] == '#',
        h < s.len() ==> s[h] != '#',
    decreases s.len(),
{
    if s.len() > 0 && s[0] == '#' {
        let rest = s.drop_first();
        let h = lemma_without_hashes(rest);
        assert(rest.skip(h) =~= s.skip(h + 1));
        assert forall|i: int| 0 <= i < h + 1 implies #[trigger] s[i] == '#' by {
            if i > 0 {
                assert(rest[i - 1] == '#');
            }
        }
        h + 1
    } else {
        assert(s.skip(0) =~= s);
        0
    }
}

/// Whether a line is a code fence.
pub open spec fn is_fence(line: Seq<char>) -> bool {
    "```"@.is_prefix_of(trimmed(line))
}

/// The plain texts of lines without fences are those of the ones before followed by those of the
/// ones behind, wherever they are parted.
pub proof fn law_plain_lines_add_up(a: Seq<Seq<char>>, b: Seq<Seq<char>>)
    requires
        forall|i: int| 0 <= i < a.len() ==> !is_fence(#[trigger] a[i]),
    ensures
        plain_lines(a + b, false) == plain_lines(a, false) + plain_lines(b, false),
    decreases a.len(),
{
    if a.len() == 0 {
        assert(a + b =~= b);
        assert(plain_lines(a, false) + plain_lines(b, false) =~= plain_lines(b, false));
    } else {
        let rest = a.drop_first();
        assert forall|i: int| 0 <= i < rest.len() implies !is_fence(#[trigger] rest[i]) by {
            assert(!is_fence(a[i + 1]));
        }
        assert((a + b).drop_first() =~= rest + b);
        assert((a + b)[0] == a[0]);
        assert(!is_fence(a[0]));
        law_plain_lines_add_up(rest, b);
        assert(plain_lines(a + b, false) =~= plain_lines(a, false) + plain_lines(b, false));
    }
}

/// A line gives its plain text without its heading marker, or nothing if it holds none.
pub proof fn law_single_lines_are_told(line: Seq<char>)
    requires
        !is_fence(line),
    ensures
        ({
            let plain = trimmed(stripped(without_heading(trimmed(line))));
            if holds_no_text(trimmed(line)) || trimmed(line).len() == 0 || plain.len() == 0 {
                plain_lines(seq![line], false).len() == 0
            } else {
                plain_lines(seq![line], false) == seq![plain]
            }
        }),
{
    assert(seq![line].drop_first() =~= Seq::empty());
    assert(seq![line][0] == line);
    reveal_with_fuel(plain_lines, 2);
    let plain = trimmed(stripped(without_heading(trimmed(line))));
    assert(seq![plain] + Seq::<Seq<char>>::empty() =~= seq![plain]);
}

/// What stands between two fences gives nothing, and nor do the fences; what stands behind a fence
/// that is never closed gives nothing either.
pub proof fn law_fenced_code_is_dropped(
    open: Seq<char>,
    inner: Seq<Seq<char>>,
    close: Seq<char>,
    b: Seq<Seq<char>>,
)
    requires
        is_fence(open),
        is_fence(close),
        forall|i: int| 0 <= i < inner.len() ==> !is_fence(#[trigger] inner[i]),
    ensures
        plain_lines(seq![open] + inner + seq![close] + b, false) == plain_lines(b, false),
        plain_lines(seq![open] + inner, false).len() == 0,
{
    let all = seq![open] + inner + seq![close] + b;
    assert(all.drop_first() =~= inner + seq![close] + b);
    assert(all[0] == open);
    assert((seq![open] + inner).drop_first() =~= inner);
    assert((seq![open] + inner)[0] == open);
    lemma_rest_of_code(inner, close, b);
}

proof fn lemma_rest_of_code(inner: Seq<Seq<char>>, close: Seq<char>, b: Seq<Seq<char>>)
    requires
        is_fence(close),
        forall|i: int| 0 <= i < inner.len() ==> !is_fence(#[trigger] inner[i]),
    ensures
        plain_lines(inner + seq![close] + b, true) == plain_lines(b, false),
        plain_lines(inner, true).len() == 0,
    decreases inner.len(),
{
    let all = inner + seq![close] + b;
    if inner.len() == 0 {
        assert(all.drop_first() =~= b);
        assert(all[0] == close);
    } else {
        let rest = inner.drop_first();
        assert forall|i: int| 0 <= i < rest.len() implies !is_fence(#[trigger] rest[i]) by {
            assert(!is_fence(inner[i + 1]));
        }
        assert(all.drop_first() =~= rest + seq![close] + b);
        assert(all[0] == inner[0]);
        assert(!is_fence(inner[0]));
        lemma_rest_of_code(rest, close, b);
    }
}

proof fn lemma_gathered(sofar: Seq<Seq<char>>, texts: Seq<Seq<char>>, max: nat) -> (k: int)
    requires
        forall|i: int| 0 <= i < sofar.len() ==> (#[trigger] sofar[i]).len() > 0,
        forall|i: int| 0 <= i < texts.len() ==> (#[trigger] texts[i]).len() > 0,
    ensures
        0 <= k <= texts.len(),
        gathered(joined(sofar, seq![' ']), texts, max) == joined(sofar + texts.take(k), seq![' ']),
        k < texts.len() ==> joined(sofar + texts.take(k), seq![' ']).len() >= max && k > 0,
        forall|j: int|
            0 < j < k ==> (#[trigger] joined(sofar + texts.take(j), seq![' '])).len() < max,
    decreases texts.len(),
{
    let sep = seq![' '];
    if texts.len() == 0 {
        assert(sofar + texts.take(0) =~= sofar);
        0
    } else {
        let more = sofar.push(texts[0]);
        assert(more.drop_last() =~= sofar);
        assert(sofar + texts.take(1) =~= more);
        if sofar.len() > 0 {
            lemma_joined_len(sofar);
            assert(more.last() == texts[0]);
        }
        let text = joined(more, sep);
        if text.len() >= max {
            assert(texts.len() > 0);
            if texts.len() == 1 {
                assert(texts.take(1) =~= texts);
            }
            1
        } else {
            let rest = texts.drop_first();
            assert forall|i: int| 0 <= i < more.len() implies (#[trigger] more[i]).len() > 0 by {
                if i < sofar.len() {
                    assert(sofar[i].len() > 0);
                }
            }
            assert forall|i: int| 0 <= i < rest.len() implies (#[trigger] rest[i]).len() > 0 by {
                assert(texts[i + 1].len() > 0);
            }
            let k = lemma_gathered(more, rest, max);
            assert(more + rest.take(k) =~= sofar + texts.take(k + 1));
            assert forall|j: int| 0 < j < k + 1 implies (#[trigger] joined(
                sofar + texts.take(j),
                sep,
            )).len() < max by {
                if j > 1 {
                    assert(more + rest.take(j - 1) =~= sofar + texts.take(j));
                    assert(joined(more + rest.take(j - 1), sep).len() < max);
                }
            }
            k + 1
        }
    }
}

proof fn lemma_joined_len(parts: Seq<Seq<char>>)
    requires
        parts.len() > 0,
        forall|i: int| 0 <= i < parts.len() ==> (#[trigger] parts[i]).len() > 0,
    ensures
        joined(parts, seq![' ']).len() > 0,
{
    if parts.len() == 1 {
        assert(parts[0].len() > 0);
    }
}

/// A snippet is made of the texts behind the title, as many of them as it takes to reach its
/// length, with a blank between each two, and is then cut.
pub proof fn law_snippets_gather_what_follows(texts: Seq<Seq<char>>, max: nat) -> (k: int)
    requires
        texts.len() > 0,
        forall|i: int| 0 <= i < texts.len() ==> (#[trigger] texts[i]).len() > 0,
    ensures
        title_of(texts) == texts[0],
        1 <= k <= texts.len(),
        snippet_of(texts, max) == cut(joined(texts.subrange(1, k), seq![' ']), max),
        k < texts.len() ==> joined(texts.subrange(1, k), seq![' ']).len() >= max,
        forall|j: int|
            1 < j < k ==> (#[trigger] joined(texts.subrange(1, j), seq![' '])).len() < max,
{
    let rest = texts.drop_first();
    let none = Seq::<Seq<char>>::empty();
    assert forall|i: int| 0 <= i < rest.len() implies (#[trigger] rest[i]).len() > 0 by {
        assert(texts[i + 1].len() > 0);
    }
    let n = lemma_gathered(none, rest, max);
    assert(joined(none, seq![' ']) =~= Seq::empty());
    assert(none + rest.take(n) =~= texts.subrange(1, n + 1));
    assert forall|j: int| 1 < j < n + 1 implies (#[trigger] joined(
        texts.subrange(1, j),
        seq![' '],
    )).len() < max by {
        assert(none + rest.take(j - 1) =~= texts.subrange(1, j));
        assert(joined(none + rest.take(j - 1), seq![' ']).len() < max);
    }
    n + 1
}

/// A text that is short enough stays. Any other keeps its beginning, up to where the limit and the
/// mark of the cut leave room, but for white space at the end of that, and gets the mark.
pub proof fn law_cut_texts_keep_their_beginning(s: Seq<char>, max: nat) -> (k: int)
    ensures
        0 <= k <= s.len(),
        s.len() <= max ==> cut(s, max) == s,
        s.len() > max && max >= 3 ==> cut(s, max) == s.take(k) + seq!['.', '.', '.'] && k <= max - 3
            && forall|i: int| k <= i < max - 3 ==> is_space(#[trigger] s[i]),
        s.len() > max && max < 3 ==> cut(s, max) == s.take(k) && k <= max && forall|i: int|
            k <= i < max ==> is_space(#[trigger] s[i]),
{
    reveal_strlit("...");
    assert("..."@ =~= seq!['.', '.', '.']);
    if s.len() <= max {
        0
    } else {
        let room = if max >= 3 {
            max - 3
        } else {
            max as int
        };
        let head = s.take(room);
        law_trimmed_end_is_white_space(head);
        let k = trim_end(head).len() as int;
        assert(trim_end(head) =~= s.take(k));
        assert forall|i: int| k <= i < room implies is_space(#[trigger] s[i]) by {
            assert(is_space(head[i]));
        }
        k
    }
}

/// No plain text of a line is empty, or begins or ends with white space.
pub proof fn law_plain_lines_are_trimmed(lines: Seq<Seq<char>>, fenced: bool, i: int)
    requires
        0 <= i < plain_lines(lines, fenced).len(),
    ensures
        plain_lines(lines, fenced)[i].len() > 0,
        !is_space(plain_lines(lines, fenced)[i][0]),
        !is_space(plain_lines(lines, fenced)[i].last()),
    decreases lines.len(),
{
    let line = trimmed(lines[0]);
    let rest = lines.drop_first();
    if "```"@.is_prefix_of(line) {
        law_plain_lines_are_trimmed(rest, !fenced, i);
    } else if line.len() == 0 || fenced || holds_no_text(line) {
        law_plain_lines_are_trimmed(rest, fenced, i);
    } else {
        let raw = stripped(without_heading(line));
        let plain = trimmed(raw);
        if plain.len() == 0 {
            law_plain_lines_are_trimmed(rest, fenced, i);
        } else if i > 0 {
            law_plain_lines_are_trimmed(rest, fenced, i - 1);
        } else {
            let r = law_trimmed_text_is_the_middle(raw);
        }
    }
}

} // verus!
