//! Identifiers and the command history that a session keeps from what is
//! typed into its terminal.
use vstd::prelude::*;
use crate::model::SessionCommandEntry;
use crate::text::{chars_of, decimal_int, hex_digits, hex_fixed, i64_decimal, push_chars, string_from_chars, trim, trim_chars};

verus! {

/// The most entries a session history keeps.
pub const HISTORY_LIMIT: usize = 250;

/// A counter that hands out short identifiers, in the order asked for.
pub struct TokenCounter {
    pub next: u64,
}

/// The counter value that follows `n` (wrapping as an atomic add does).
pub open spec fn after(n: u64) -> u64 {
    if n == u64::MAX {
        0
    } else {
        (n + 1) as u64
    }
}

/// A token: the low 24 bits of the counter as six lower-case hex digits.
pub open spec fn token_text(n: u64) -> Seq<char> {
    hex_digits((n % 0x100_0000) as nat, 6)
}

impl TokenCounter {
    /// A counter whose first token is `000001`.
    pub fn new() -> (c: TokenCounter)
        ensures
            c.next == 1,
    {
        TokenCounter { next: 1 }
    }

    fn advance(&mut self) -> (n: u64)
        ensures
            n == old(self).next,
            final(self).next == after(old(self).next),
    {
        let n = self.next;
        self.next = if n == u64::MAX { 0 } else { n + 1 };
        n
    }

    /// The next token, as six hex digits.
    pub fn create_token(&mut self) -> (t: String)
        ensures
            t@ == token_text(old(self).next),
            final(self).next == after(old(self).next),
    {
        let n = self.advance();
        let digits = hex_fixed(n % 0x100_0000, 6);
        string_from_chars(digits.as_slice())
    }

    /// The next token as a tab identifier: `tab-` and six hex digits.
    pub fn generate_id(&mut self) -> (t: String)
        ensures
            t@ == "tab-"@ + token_text(old(self).next),
            final(self).next == after(old(self).next),
    {
        let n = self.advance();
        let mut out = chars_of("tab-");
        let digits = hex_fixed(n % 0x100_0000, 6);
        push_chars(&mut out, digits.as_slice());
        string_from_chars(out.as_slice())
    }
}

/// An identifier made of a millisecond timestamp and a token.
pub open spec fn stamped_id(now: i64, token: u64) -> Seq<char> {
    decimal_int(now as int) + seq!['-'] + token_text(token)
}

/// `{timestamp}-{token}`, the identifier of history and activity entries.
pub fn stamped_token(now: i64, tokens: &mut TokenCounter) -> (id: String)
    ensures
        id@ == stamped_id(now, old(tokens).next),
        final(tokens).next == after(old(tokens).next),
{
    let mut out = i64_decimal(now);
    out.push('-');
    let n = tokens.advance();
    let digits = hex_fixed(n % 0x100_0000, 6);
    push_chars(&mut out, digits.as_slice());
    assert(out@ =~= stamped_id(now, n));
    string_from_chars(out.as_slice())
}

/// The mathematical value of a history entry.
pub struct EntryView {
    pub id: Seq<char>,
    pub command: Seq<char>,
    pub timestamp: i64,
    pub source: Seq<char>,
}

pub open spec fn entry_view(e: SessionCommandEntry) -> EntryView {
    EntryView { id: e.id@, command: e.command@, timestamp: e.timestamp, source: e.source@ }
}

pub open spec fn history_view(h: Seq<SessionCommandEntry>) -> Seq<EntryView> {
    Seq::new(h.len(), |i: int| entry_view(h[i]))
}

/// A history with `e` added in front, cut to the limit.
pub open spec fn with_entry(h: Seq<EntryView>, e: EntryView) -> Seq<EntryView> {
    let added = seq![e] + h;
    if added.len() > HISTORY_LIMIT {
        added.take(HISTORY_LIMIT as int)
    } else {
        added
    }
}

/// The entry recorded for a command.
pub open spec fn new_entry(command: Seq<char>, source: Seq<char>, now: i64, token: u64) -> EntryView {
    EntryView { id: stamped_id(now, token), command: trim(command), timestamp: now, source }
}

fn add_entry(history: &mut Vec<SessionCommandEntry>, entry: SessionCommandEntry)
    ensures
        history_view(final(history)@) == with_entry(history_view(old(history)@), entry_view(entry)),
{
    let ghost old_h = history@;
    history.insert(0, entry);
    assert(history_view(history@) =~= seq![entry_view(entry)] + history_view(old_h));
    if history.len() > HISTORY_LIMIT {
        history.truncate(HISTORY_LIMIT);
        assert(history_view(history@) =~= (seq![entry_view(entry)] + history_view(old_h)).take(
            HISTORY_LIMIT as int,
        ));
    }
}

/// Records a command typed or started in a session: blank commands are
/// ignored; otherwise the trimmed command goes first in the history
/// (which keeps the latest 250), stamped with `now` and the next token.
pub fn append_history_entry(
    history: &mut Vec<SessionCommandEntry>,
    command: &str,
    source: &str,
    now: i64,
    tokens: &mut TokenCounter,
) -> (r: Option<SessionCommandEntry>)
    ensures
        trim(command@).len() == 0 ==> {
            &&& r is None
            &&& final(history)@ == old(history)@
            &&& final(tokens).next == old(tokens).next
        },
        trim(command@).len() > 0 ==> {
            &&& r matches Some(e) && entry_view(e) == new_entry(command@, source@, now, old(tokens).next)
            &&& history_view(final(history)@) == with_entry(
                history_view(old(history)@),
                new_entry(command@, source@, now, old(tokens).next),
            )
            &&& final(tokens).next == after(old(tokens).next)
        },
{
    let cs = chars_of(command);
    let normalized = trim_chars(cs.as_slice());
    if normalized.len() == 0 {
        return None;
    }
    let id = stamped_token(now, tokens);
    let entry = SessionCommandEntry {
        id,
        command: string_from_chars(normalized.as_slice()),
        timestamp: now,
        source: source.to_owned(),
    };
    let copy = entry.clone();
    add_entry(history, entry);
    Some(copy)
}

/// What a session's input tracker holds.
pub struct TrackView {
    pub buffer: Seq<char>,
    pub history: Seq<EntryView>,
    pub produced: Seq<EntryView>,
    pub next: u64,
}

/// Feeding one typed character to the tracker: Enter records the
/// buffered command, Ctrl-C and Ctrl-U clear the buffer, Backspace and
/// Delete drop its last character, Tab and printable characters are
/// buffered, other control characters are ignored.
pub open spec fn track_char(s: TrackView, c: char, now: i64) -> TrackView {
    if c == '\r' || c == '\n' {
        if trim(s.buffer).len() > 0 {
            let e = new_entry(s.buffer, "interactive"@, now, s.next);
            TrackView {
                buffer: Seq::empty(),
                history: with_entry(s.history, e),
                produced: s.produced.push(e),
                next: after(s.next),
            }
        } else {
            TrackView { buffer: Seq::empty(), ..s }
        }
    } else if c == '\u{3}' || c == '\u{15}' {
        TrackView { buffer: Seq::empty(), ..s }
    } else if c == '\u{8}' || c == '\u{7f}' {
        if s.buffer.len() > 0 {
            TrackView { buffer: s.buffer.drop_last(), ..s }
        } else {
            s
        }
    } else if c == '\t' || c >= ' ' {
        TrackView { buffer: s.buffer.push(c), ..s }
    } else {
        s
    }
}

/// Feeding a sequence of typed characters to the tracker.
pub open spec fn track_chars(s: TrackView, data: Seq<char>, now: i64) -> TrackView
    decreases data.len(),
{
    if data.len() == 0 {
        s
    } else {
        track_char(track_chars(s, data.drop_last(), now), data.last(), now)
    }
}

/// Follows what is typed into a session's terminal and records each
/// command entered; returns the entries recorded, in order.
pub fn track_command_input(
    command_buffer: &mut String,
    history: &mut Vec<SessionCommandEntry>,
    data: &str,
    now: i64,
    tokens: &mut TokenCounter,
) -> (entries: Vec<SessionCommandEntry>)
    ensures
        ({
            let t = track_chars(
                TrackView {
                    buffer: old(command_buffer)@,
                    history: history_view(old(history)@),
                    produced: Seq::empty(),
                    next: old(tokens).next,
                },
                data@,
                now,
            );
            &&& final(command_buffer)@ == t.buffer
            &&& history_view(final(history)@) == t.history
            &&& history_view(entries@) == t.produced
            &&& final(tokens).next == t.next
        }),
{
    let ghost start = TrackView {
        buffer: command_buffer@,
        history: history_view(history@),
        produced: Seq::empty(),
        next: tokens.next,
    };
    let input = chars_of(data);
    let mut buffer = chars_of(command_buffer.as_str());
    let mut entries: Vec<SessionCommandEntry> = Vec::new();
    let mut i: usize = 0;
    assert(input@.take(0) =~= Seq::<char>::empty());
    assert(history_view(entries@) =~= Seq::<EntryView>::empty());
    while i < input.len()
        invariant
            i <= input@.len(),
            input@ == data@,
            track_chars(start, input@.take(i as int), now) == (TrackView {
                buffer: buffer@,
                history: history_view(history@),
                produced: history_view(entries@),
                next: tokens.next,
            }),
        decreases input@.len() - i,
    {
        let c = input[i];
        proof {
            assert(input@.take(i + 1).drop_last() =~= input@.take(i as int));
            assert(input@.take(i + 1).last() == c);
        }
        if c == '\r' || c == '\n' {
            let text = string_from_chars(buffer.as_slice());
            let ghost before = entries@;
            let recorded = append_history_entry(history, text.as_str(), "interactive", now, tokens);
            if let Some(entry) = recorded {
                entries.push(entry);
                assert(history_view(entries@) =~= history_view(before).push(entry_view(entry)));
            }
            buffer = Vec::new();
        } else if c == '\u{3}' || c == '\u{15}' {
            buffer = Vec::new();
        } else if c == '\u{8}' || c == '\u{7f}' {
            if buffer.len() > 0 {
                buffer.pop();
            }
        } else if c == '\t' || c >= ' ' {
            buffer.push(c);
        }
        i = i + 1;
        proof {
            reveal_strlit("interactive");
        }
    }
    assert(input@.take(input@.len() as int) =~= input@);
    *command_buffer = string_from_chars(buffer.as_slice());
    entries
}

proof fn lemma_track_step(s: TrackView, p: Seq<char>, c: char, now: i64)
    ensures
        track_chars(s, p.push(c), now) == track_char(track_chars(s, p, now), c, now),
{
    assert(p.push(c).drop_last() =~= p);
    assert(p.push(c).last() == c);
}

/// Ctrl-C and Ctrl-U throw away what was typed since the last command:
/// after either, the buffer is empty and nothing is recorded.
pub proof fn law_interrupt_discards_typing(s: TrackView, typed: Seq<char>, c: char, now: i64)
    requires
        c == '\u{3}' || c == '\u{15}',
    ensures
        track_chars(s, typed.push(c), now).buffer == Seq::<char>::empty(),
        track_chars(s, typed.push(c), now).history == track_chars(s, typed, now).history,
        track_chars(s, typed.push(c), now).produced == track_chars(s, typed, now).produced,
        track_chars(s, typed.push(c), now).next == track_chars(s, typed, now).next,
{
    lemma_track_step(s, typed, c, now);
}

/// Backspace and Delete take back the last character typed, if any, and
/// record nothing.
pub proof fn law_backspace_takes_back(s: TrackView, typed: Seq<char>, c: char, now: i64)
    requires
        c == '\u{8}' || c == '\u{7f}',
    ensures
        ({
            let t = track_chars(s, typed, now);
            let u = track_chars(s, typed.push(c), now);
            &&& u.buffer == (if t.buffer.len() > 0 { t.buffer.drop_last() } else { t.buffer })
            &&& u.history == t.history
            &&& u.produced == t.produced
            &&& u.next == t.next
        }),
{
    lemma_track_step(s, typed, c, now);
}

/// A printable character or Tab is added to the end of the buffer, and
/// nothing is recorded.
pub proof fn law_typing_is_buffered(s: TrackView, typed: Seq<char>, c: char, now: i64)
    requires
        c == '\t' || (c >= ' ' && c != '\u{7f}'),
    ensures
        ({
            let t = track_chars(s, typed, now);
            let u = track_chars(s, typed.push(c), now);
            &&& u.buffer == t.buffer.push(c)
            &&& u.history == t.history
            &&& u.produced == t.produced
            &&& u.next == t.next
        }),
{
    lemma_track_step(s, typed, c, now);
}

/// Other control characters change nothing.
pub proof fn law_other_controls_ignored(s: TrackView, typed: Seq<char>, c: char, now: i64)
    requires
        c < ' ',
        c != '\t',
        c != '\r',
        c != '\n',
        c != '\u{3}',
        c != '\u{15}',
        c != '\u{8}',
    ensures
        track_chars(s, typed.push(c), now) == track_chars(s, typed, now),
{
    lemma_track_step(s, typed, c, now);
}

/// Enter empties the buffer; when the buffer holds more than white space
/// it records one command, the buffer trimmed, entered now from the
/// terminal, at the front of the history (the oldest falling off past the
/// limit); otherwise it records nothing.
pub proof fn law_enter_records_command(s: TrackView, typed: Seq<char>, c: char, now: i64)
    requires
        c == '\r' || c == '\n',
    ensures
        ({
            let t = track_chars(s, typed, now);
            let u = track_chars(s, typed.push(c), now);
            &&& u.buffer == Seq::<char>::empty()
            &&& trim(t.buffer).len() > 0 ==> {
                &&& u.produced.len() == t.produced.len() + 1
                &&& u.produced.drop_last() == t.produced
                &&& u.produced.last().command == trim(t.buffer)
                &&& u.produced.last().timestamp == now
                &&& u.produced.last().source == "interactive"@
                &&& u.history.len() > 0 && u.history[0] == u.produced.last()
                &&& u.history.len() == (if t.history.len() + 1 > HISTORY_LIMIT { HISTORY_LIMIT as int } else { t.history.len() + 1int })
                &&& forall|k: int| 1 <= k < u.history.len() ==> #[trigger] u.history[k] == t.history[k - 1]
                &&& u.next == after(t.next)
            }
            &&& trim(t.buffer).len() == 0 ==> u.history == t.history && u.produced == t.produced && u.next == t.next
        }),
{
    lemma_track_step(s, typed, c, now);
    let t = track_chars(s, typed, now);
    let u = track_chars(s, typed.push(c), now);
    if trim(t.buffer).len() > 0 {
        assert(u.produced.drop_last() =~= t.produced);
    }
}

} // verus!
