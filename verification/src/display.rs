//! The arithmetic behind what the helper draws: how wide, how many dashes,
//! which colour, which port.

use crate::text::{
    append_chars, byte_len, char_bytes, chars_of, split_words, string_of, string_views, views_of,
    words_of,
};
use vstd::prelude::*;

verus! {

/// Dashes on a header line that holds a text of five bytes.
pub const TOTAL_DASHES: usize = 52;

/// Width of the wave of a loader, in cells.
pub const WAVE_LEN: usize = 63;

/// Number of colours that an animation runs through.
pub const COLOR_COUNT: usize = 46;

/// Lowest port that the helper picks for a tunnel.
pub const PORT_LOW: u16 = 40000;

/// Above the highest port that the helper picks for a tunnel.
pub const PORT_HIGH: u16 = 60000;

/// The port that the helper falls back on.
pub const FALLBACK_PORT: u16 = 50000;

/// How many ports the helper tries before it falls back.
pub const MAX_PORT_TRIES: u32 = 100;

/// The number of spaces that centre a content of `content_width` columns
/// in a terminal of `term_width` columns.
pub open spec fn padding_of(term_width: nat, content_width: nat) -> nat {
    if term_width > content_width {
        ((term_width - content_width) / 2) as nat
    } else {
        0
    }
}

/// The dashes left and right of a header text of `header_len` bytes: 52 in
/// all for a text of up to five bytes, one less for every byte more, never
/// under two; the left side gets the smaller half.
pub open spec fn dashes_of(header_len: nat) -> (nat, nat) {
    let over: nat = if header_len > 5 {
        (header_len - 5) as nat
    } else {
        0
    };
    let room: nat = if over < 52 {
        (52 - over) as nat
    } else {
        0
    };
    let all: nat = if room < 2 {
        2
    } else {
        room
    };
    (all / 2, (all - all / 2) as nat)
}

/// The colour of line `line` of an animation at frame `frame`: the greys
/// from 232 up to 255 and down again to 233, one step per frame and line.
pub open spec fn color_of(frame: nat, line: nat) -> nat {
    let step = (frame + line) % 46;
    if step < 24 {
        232 + step
    } else {
        (278 - step) as nat
    }
}

/// How far the wave's crest at `pos` is from the middle of the wave.
pub open spec fn crest_distance(pos: nat) -> nat {
    if pos >= 31 {
        (pos - 31) as nat
    } else {
        (31 - pos) as nat
    }
}

/// The height of the wave's crest at `pos`, from 0 to 7: highest in the
/// middle.
pub open spec fn wave_height_of(pos: nat) -> nat {
    if crest_distance(pos) * 7 / 31 >= 7 {
        0
    } else {
        (7 - crest_distance(pos) * 7 / 31) as nat
    }
}

/// The milliseconds between two frames of the wave with its crest at
/// `pos`: the crest slows down towards the ends.
pub open spec fn wave_delay_of(pos: nat) -> nat {
    let tenths = crest_distance(pos) * 10 / 31;
    if tenths == 9 || tenths == 10 {
        30
    } else if tenths == 8 {
        20
    } else if tenths == 6 || tenths == 7 {
        10
    } else {
        5
    }
}

/// The crest after one frame: it moves one cell in its direction and turns
/// round where that would take it out of the wave.
pub open spec fn bounce_of(pos: nat, forward: bool) -> (nat, bool) {
    if forward {
        if pos + 1 >= 63 {
            (pos, false)
        } else {
            (pos + 1, true)
        }
    } else {
        if pos == 0 {
            (0, true)
        } else {
            ((pos - 1) as nat, false)
        }
    }
}

/// The spaces that centre a content in a terminal of `term_width`
/// columns; a content of unknown width counts as 65 columns wide.
pub fn center_content(term_width: usize, content_width: Option<usize>) -> (padding: String)
    ensures
        padding@.len() == padding_of(
            term_width as nat,
            match content_width {
                Some(w) => w as nat,
                None => 65,
            },
        ),
        forall|i: int| 0 <= i < padding@.len() ==> padding@[i] == ' ',
{
    let width: usize = match content_width {
        Some(w) => w,
        None => 65,
    };
    let count: usize = if term_width > width {
        (term_width - width) / 2
    } else {
        0
    };
    let mut out: Vec<char> = Vec::new();
    let mut i: usize = 0;
    while i < count
        invariant
            i <= count,
            out@.len() == i,
            forall|j: int| 0 <= j < i ==> out@[j] == ' ',
        decreases count - i,
    {
        out.push(' ');
        i += 1;
    }
    string_of(&out)
}

/// The dashes left and right of a header text of `header_len` bytes.
pub fn header_dashes(header_len: usize) -> (dashes: (usize, usize))
    ensures
        dashes.0 == dashes_of(header_len as nat).0,
        dashes.1 == dashes_of(header_len as nat).1,
{
    let over: usize = if header_len > 5 {
        header_len - 5
    } else {
        0
    };
    let room: usize = if over < TOTAL_DASHES {
        TOTAL_DASHES - over
    } else {
        0
    };
    let all: usize = if room < 2 {
        2
    } else {
        room
    };
    (all / 2, all - all / 2)
}

/// The colour of line `line` of an animation at frame `frame`.
pub fn frame_color(frame: usize, line: usize) -> (color: u8)
    ensures
        color == color_of(frame as nat, line as nat),
        232 <= color <= 255,
{
    let step: usize = (frame % COLOR_COUNT + line % COLOR_COUNT) % COLOR_COUNT;
    proof {
        vstd::arithmetic::div_mod::lemma_add_mod_noop(frame as int, line as int, 46);
    }
    if step < 24 {
        (232 + step) as u8
    } else {
        (278 - step) as u8
    }
}

/// The height of the wave's crest at `pos`.
pub fn wave_height(pos: usize) -> (height: usize)
    ensures
        height == wave_height_of(pos as nat),
        height <= 7,
{
    let dist: usize = if pos >= 31 {
        pos - 31
    } else {
        31 - pos
    };
    if dist >= 31 {
        0
    } else {
        7 - dist * 7 / 31
    }
}

/// The milliseconds between two frames of the wave with its crest at
/// `pos`.
pub fn wave_delay(pos: usize) -> (millis: u64)
    ensures
        millis == wave_delay_of(pos as nat),
{
    let dist: usize = if pos >= 31 {
        pos - 31
    } else {
        31 - pos
    };
    if dist >= 35 {
        return 5;
    }
    let tenths: usize = dist * 10 / 31;
    if tenths == 9 || tenths == 10 {
        30
    } else if tenths == 8 {
        20
    } else if tenths == 6 || tenths == 7 {
        10
    } else {
        5
    }
}

/// The crest after one frame.
pub fn bounce(pos: usize, forward: bool) -> (next: (usize, bool))
    ensures
        next.0 == bounce_of(pos as nat, forward).0,
        next.1 == bounce_of(pos as nat, forward).1,
        pos < WAVE_LEN ==> next.0 < WAVE_LEN,
{
    if forward {
        if pos >= WAVE_LEN - 1 {
            (pos, false)
        } else {
            (pos + 1, true)
        }
    } else {
        if pos == 0 {
            (0, true)
        } else {
            (pos - 1, false)
        }
    }
}

/// A number that `rand`'s generator for this thread (`rand::thread_rng`)
/// draws from `low` up to, not including, `high` (`Rng::gen_range`).
///
/// Trusted: the number lies in the range. Which one it is depends on
/// chance; two calls may differ. `gen_range` panics on an empty range,
/// which the precondition leaves out; `thread_rng` gives up where the
/// system has no randomness to seed it with, which nothing here can rule
/// out.
#[verifier::external_body]
fn random_between(low: u16, high: u16) -> (n: u16)
    requires
        low < high,
    ensures
        low <= n < high,
{
    rand::Rng::gen_range(&mut rand::thread_rng(), low..high)
}

/// What the search for a free port does after a try.
#[derive(Debug, Clone, Copy, PartialEq, Eq, Structural)]
pub enum PortStep {
    /// Take this port.
    Use(u16),
    /// Draw another port and try it.
    TryAgain,
}

/// A port to try for a tunnel.
pub fn port_candidate() -> (port: u16)
    ensures
        PORT_LOW <= port < PORT_HIGH,
{
    random_between(PORT_LOW, PORT_HIGH)
}

/// The step after a try: `candidate` was drawn after `tries_before` tries
/// that found their port taken, and is itself `in_use` or not. A free port
/// is taken; after `MAX_PORT_TRIES` tries the search falls back on
/// `FALLBACK_PORT`.
pub fn port_step(tries_before: u32, candidate: u16, in_use: bool) -> (step: PortStep)
    ensures
        step == if !in_use {
            PortStep::Use(candidate)
        } else if tries_before + 1 >= MAX_PORT_TRIES {
            PortStep::Use(FALLBACK_PORT)
        } else {
            PortStep::TryAgain
        },
{
    if !in_use {
        PortStep::Use(candidate)
    } else if tries_before >= MAX_PORT_TRIES - 1 {
        PortStep::Use(FALLBACK_PORT)
    } else {
        PortStep::TryAgain
    }
}

/// Bytes that a line of a notification may hold, the space before a word
/// counted with the word.
pub const LINE_LIMIT: usize = 62;

/// The lines that words are wrapped into, given the lines already full and
/// the line being filled: a word goes on the line being filled while the
/// line, the word and one byte more stay within the limit; else the line is
/// closed and the word opens the next. A word that alone is over the limit
/// is left out.
pub open spec fn wrapped(words: Seq<Seq<char>>, full: Seq<Seq<char>>, current: Seq<char>) -> Seq<
    Seq<char>,
>
    decreases words.len(),
{
    if words.len() == 0 {
        if current.len() > 0 {
            full.push(current)
        } else {
            full
        }
    } else if byte_len(current) + byte_len(words[0]) + 1 <= LINE_LIMIT {
        wrapped(
            words.drop_first(),
            full,
            if current.len() > 0 {
                current + seq![' '] + words[0]
            } else {
                words[0]
            },
        )
    } else if current.len() > 0 {
        wrapped(words.drop_first(), full.push(current), words[0])
    } else {
        wrapped(words.drop_first(), full, current)
    }
}

/// The lines of a notification for a message.
pub open spec fn notification_lines_of(message: Seq<char>) -> Seq<Seq<char>> {
    wrapped(words_of(message), Seq::empty(), Seq::empty())
}

/// Adding a character adds its bytes.
pub proof fn lemma_byte_len_push(s: Seq<char>, c: char)
    ensures
        byte_len(s.push(c)) == byte_len(s) + char_bytes(c),
{
    assert(s.push(c).drop_last() =~= s);
}

/// The bytes of two texts one after the other are those of both.
pub proof fn lemma_byte_len_add(a: Seq<char>, b: Seq<char>)
    ensures
        byte_len(a + b) == byte_len(a) + byte_len(b),
    decreases b.len(),
{
    if b.len() == 0 {
        assert(a + b =~= a);
    } else {
        lemma_byte_len_add(a, b.drop_last());
        assert((a + b).drop_last() =~= a + b.drop_last());
    }
}

/// Whether the characters take no more than `cap` bytes in UTF-8, and how
/// many they take where that is so.
fn bytes_within(s: &Vec<char>, cap: usize) -> (n: Option<usize>)
    requires
        cap + 4 <= usize::MAX,
    ensures
        match n {
            Some(len) => len == byte_len(s@) && len <= cap,
            None => byte_len(s@) > cap,
        },
{
    let mut n: usize = 0;
    let mut i: usize = 0;
    assert(s@.take(0) =~= Seq::<char>::empty());
    while i < s.len()
        invariant
            i <= s.len(),
            cap + 4 <= usize::MAX,
            n == byte_len(s@.take(i as int)),
            n <= cap,
        decreases s.len() - i,
    {
        let u: u32 = s[i] as u32;
        let w: usize = if u < 0x80 {
            1
        } else if u < 0x800 {
            2
        } else if u < 0x10000 {
            3
        } else {
            4
        };
        proof {
            let next = s@.take(i + 1);
            assert(next.drop_last() =~= s@.take(i as int));
            assert(next.last() == s@[i as int]);
            assert(s@ =~= next + s@.skip(i + 1));
            lemma_byte_len_add(next, s@.skip(i + 1));
        }
        if n + w > cap {
            return None;
        }
        n = n + w;
        i += 1;
    }
    assert(s@.take(s.len() as int) =~= s@);
    Some(n)
}

/// The lines of a notification for `message`.
pub fn notification_lines(message: &str) -> (lines: Vec<String>)
    ensures
        string_views(lines@) == notification_lines_of(message@),
{
    let words = split_words(&chars_of(message));
    let ghost all = views_of(words@);
    let mut lines: Vec<String> = Vec::new();
    let mut current: Vec<char> = Vec::new();
    let mut current_bytes: usize = 0;
    let mut i: usize = 0;
    proof {
        assert(all.skip(0) =~= all);
        assert(string_views(lines@) =~= Seq::<Seq<char>>::empty());
        assert(current@ =~= Seq::<char>::empty());
    }
    while i < words.len()
        invariant
            i <= words.len(),
            all == views_of(words@),
            current_bytes <= LINE_LIMIT ==> current_bytes == byte_len(current@),
            current_bytes > LINE_LIMIT ==> byte_len(current@) > LINE_LIMIT,
            current_bytes <= LINE_LIMIT + 1,
            notification_lines_of(message@) == wrapped(
                all.skip(i as int),
                string_views(lines@),
                current@,
            ),
        decreases words.len() - i,
    {
        let word = &words[i];
        let ghost rest = all.skip(i as int);
        proof {
            assert(rest[0] == word@);
            assert(rest.drop_first() =~= all.skip(i + 1));
        }
        let fits: Option<usize> = match bytes_within(word, LINE_LIMIT) {
            Some(len) => if current_bytes + len + 1 <= LINE_LIMIT {
                Some(len)
            } else {
                None
            },
            None => None,
        };
        match fits {
            Some(len) => {
                if current.len() > 0 {
                    proof {
                        lemma_byte_len_push(current@, ' ');
                        lemma_byte_len_add(current@.push(' '), word@);
                        assert(current@.push(' ') + word@ =~= current@ + seq![' '] + word@);
                    }
                    current.push(' ');
                    append_chars(&mut current, word);
                    current_bytes = current_bytes + 1 + len;
                } else {
                    proof {
                        assert(current@ + word@ =~= word@);
                    }
                    append_chars(&mut current, word);
                    current_bytes = len;
                }
            },
            None => {
                if current.len() > 0 {
                    let line = string_of(&current);
                    proof {
                        assert(string_views(lines@.push(line)) =~= string_views(lines@).push(
                            current@,
                        ));
                    }
                    lines.push(line);
                    current = word.clone();
                    current_bytes = match bytes_within(word, LINE_LIMIT) {
                        Some(len) => len,
                        None => LINE_LIMIT + 1,
                    };
                }
            },
        }
        i += 1;
    }
    proof {
        assert(all.skip(words.len() as int).len() == 0);
    }
    if current.len() > 0 {
        let line = string_of(&current);
        proof {
            assert(string_views(lines@.push(line)) =~= string_views(lines@).push(current@));
        }
        lines.push(line);
    }
    lines
}

/// What stands in a cell of the loader's wave.
#[derive(Debug, Clone, Copy, PartialEq, Eq, Structural)]
pub enum WaveCell {
    /// The crest, at this height.
    Crest(usize),
    /// A space next to the message.
    Pad,
    /// The character of the message at this position, counted from 0.
    Letter(usize),
    /// Nothing but the dim background.
    Dim,
}

/// The cell at `i` of a wave with its crest at `pos` over a message of
/// `message_len` bytes: the crest covers the message, which stands in the
/// middle with a space on either side.
pub open spec fn wave_cell_of(i: nat, pos: nat, message_len: nat) -> WaveCell {
    let padded = message_len + 2;
    let start = (63 - padded) / 2;
    if i == pos {
        WaveCell::Crest(wave_height_of(pos) as usize)
    } else if start <= i < start + padded {
        if i == start || i == start + padded - 1 {
            WaveCell::Pad
        } else {
            WaveCell::Letter((i - start - 1) as usize)
        }
    } else {
        WaveCell::Dim
    }
}

/// The cell at `i` of a wave with its crest at `pos` over a message of
/// `message_len` bytes. The message with its two spaces has to fit in the
/// wave.
pub fn wave_cell(i: usize, pos: usize, message_len: usize) -> (cell: WaveCell)
    requires
        message_len + 2 <= WAVE_LEN,
    ensures
        cell == wave_cell_of(i as nat, pos as nat, message_len as nat),
{
    let padded: usize = message_len + 2;
    let start: usize = (WAVE_LEN - padded) / 2;
    if i == pos {
        WaveCell::Crest(wave_height(pos))
    } else if start <= i && i < start + padded {
        if i == start || i == start + padded - 1 {
            WaveCell::Pad
        } else {
            WaveCell::Letter(i - start - 1)
        }
    } else {
        WaveCell::Dim
    }
}

/// How wide the block of a notification is and how its title is padded.
#[derive(Debug, Clone, Copy, PartialEq, Eq, Structural)]
pub struct NotificationFrame {
    pub block_width: usize,
    pub title_left: usize,
    pub title_right: usize,
}

/// The frame of a notification whose longest line takes `longest` bytes,
/// whose title takes `title_len` and whose icon takes `icon_len`: the
/// content is as wide as the longest line or the title and three bytes
/// more, the block eight bytes wider, and the title stands in the middle,
/// the left side getting the smaller half of what is over. Nothing where
/// icon and title do not fit in the block.
pub open spec fn frame_of(longest: nat, title_len: nat, icon_len: nat) -> Option<(nat, nat, nat)> {
    let content = if longest > title_len + 3 {
        longest
    } else {
        title_len + 3
    };
    let block = content + 8;
    let title = icon_len + 1 + title_len;
    if block >= title + 4 {
        let over = (block - title - 4) as nat;
        Some((block, over / 2, (over - over / 2) as nat))
    } else {
        None
    }
}

/// The frame of a notification.
pub fn notification_frame(longest: usize, title_len: usize, icon_len: usize) -> (frame: Option<
    NotificationFrame,
>)
    requires
        longest + 8 <= usize::MAX,
        title_len + icon_len + 16 <= usize::MAX,
    ensures
        match frame {
            Some(f) => frame_of(longest as nat, title_len as nat, icon_len as nat) == Some(
                (f.block_width as nat, f.title_left as nat, f.title_right as nat),
            ),
            None => frame_of(longest as nat, title_len as nat, icon_len as nat) is None,
        },
{
    let content: usize = if longest > title_len + 3 {
        longest
    } else {
        title_len + 3
    };
    let block: usize = content + 8;
    let title: usize = icon_len + 1 + title_len;
    if block >= title + 4 {
        let over: usize = block - title - 4;
        Some(
            NotificationFrame {
                block_width: block,
                title_left: over / 2,
                title_right: over - over / 2,
            },
        )
    } else {
        None
    }
}

} // verus!
