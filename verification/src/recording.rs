//! Recording a stream to a file by copying its packets.

use crate::decoder::streams::Medium;
use crate::decoder::time::Rational;
use crate::streaming::{before_query, law_query_is_cut_off, without_query};
use crate::text::{
    contains, ends_with, has_suffix, has_text, lowercase, lowered, matches_at, to_chars,
};
use vstd::prelude::*;

verus! {

/// The container to record a source into.
pub open spec fn container_for(source: Seq<char>) -> Seq<char> {
    let s = before_query(lowered(source));
    if contains(s, ".m3u8"@) || ends_with(s, ".ts"@) || contains(s, ".m3u"@) {
        "ts"@
    } else if ends_with(s, ".mp4"@) || ends_with(s, ".m4v"@) || ends_with(s, ".mov"@) {
        "mp4"@
    } else if ends_with(s, ".webm"@) {
        "webm"@
    } else {
        "mkv"@
    }
}

/// The extension of the container that suits a source best: `ts` for live
/// streams, its own where it is known, and `mkv` otherwise.
pub fn recording_extension(source: &str) -> (r: &'static str)
    ensures
        r@ == container_for(source@),
{
    let chars = to_chars(source);
    let l = lowercase(&chars);
    let s = without_query(&l);
    if has_text(s, ".m3u8") || has_suffix(s, ".ts") || has_text(s, ".m3u") {
        "ts"
    } else if has_suffix(s, ".mp4") || has_suffix(s, ".m4v") || has_suffix(s, ".mov") {
        "mp4"
    } else if has_suffix(s, ".webm") {
        "webm"
    } else {
        "mkv"
    }
}

// ---- Copying packets -------------------------------------------------------

/// Why nothing is recorded.
#[derive(Debug, Clone, Copy, PartialEq, Eq, Structural)]
pub enum RecordError {
    /// No stream can be recorded.
    NoStream,
}

impl RecordError {
    /// What is wrong.
    pub fn message(&self) -> (r: &'static str)
        ensures
            r@ == "aucun flux exploitable à enregistrer"@,
    {
        "aucun flux exploitable à enregistrer"
    }
}

/// Whether a stream is recorded.
pub open spec fn is_recorded(m: Medium) -> bool {
    m != Medium::Other
}

/// How many of the streams are recorded.
pub open spec fn recorded_count(media: Seq<Medium>) -> nat
    decreases media.len(),
{
    if media.len() == 0 {
        0
    } else {
        recorded_count(media.drop_last()) + (if is_recorded(media.last()) {
            1nat
        } else {
            0
        })
    }
}

/// The place of a stream in the recording, if it is recorded: those that are keep
/// their order.
pub open spec fn recorded_place(media: Seq<Medium>, stream: int) -> Option<int> {
    if 0 <= stream < media.len() && is_recorded(media[stream]) {
        Some(recorded_count(media.take(stream)) as int)
    } else {
        None
    }
}

/// Streams that are recorded keep their order, and none of them is lost.
pub proof fn law_recorded_streams_keep_their_order(media: Seq<Medium>, a: int, b: int)
    requires
        0 <= a < b < media.len(),
    ensures
        recorded_place(media, a) matches Some(x) ==> recorded_place(media, b) matches Some(y)
            ==> 0 <= x < y < recorded_count(media),
    decreases media.len() - b,
{
    lemma_count_grows(media, a + 1, b);
    lemma_count_grows(media, b + 1, media.len() as int);
    assert(media.take(a + 1).drop_last() =~= media.take(a));
    assert(media.take(b + 1).drop_last() =~= media.take(b));
    assert(media.take(media.len() as int) =~= media);
}

/// More streams are recorded of more streams.
proof fn lemma_count_grows(media: Seq<Medium>, from: int, to: int)
    requires
        0 <= from <= to <= media.len(),
    ensures
        recorded_count(media.take(from)) <= recorded_count(media.take(to)) <= to,
    decreases to,
{
    if from < to {
        assert(media.take(to).drop_last() =~= media.take(to - 1));
        lemma_count_grows(media, from, to - 1);
    } else if to > 0 {
        assert(media.take(to).drop_last() =~= media.take(to - 1));
        lemma_count_grows(media, to - 1, to - 1);
    }
}

/// What is done with a packet that was read.
#[derive(Debug, Clone, Copy, PartialEq, Eq, Structural)]
pub enum RecordStep {
    /// Nothing more is recorded: the file is closed.
    Finish,
    /// The packet is left out.
    Skip,
    /// The packet is written to this stream of the recording.
    Write(usize),
}

/// What came of reading a packet.
#[derive(Debug, Clone, Copy, PartialEq, Eq, Structural)]
pub enum PacketRead {
    /// There is none left.
    End,
    /// It is unreadable.
    Unreadable,
    /// It belongs to this stream and has this size.
    Packet { stream: usize, size: u64 },
}

/// A recording: where the streams go, and what was written.
#[derive(Debug)]
pub struct Recording {
    /// The streams of the medium.
    media: Vec<Medium>,
    /// For each stream its place in the recording, if it is recorded.
    mapping: Vec<Option<usize>>,
    outputs: usize,
    bytes: u64,
}

impl Recording {
    /// The streams of the medium.
    pub closed spec fn streams(&self) -> Seq<Medium> {
        self.media@
    }

    /// Whether each stream goes to its place.
    pub closed spec fn wf(&self) -> bool {
        &&& self.outputs == recorded_count(self.media@)
        &&& self.mapping@.len() == self.media@.len()
        &&& forall|i: int|
            0 <= i < self.mapping@.len() ==> recorded_place(self.media@, i) == (
            match #[trigger] self.mapping@[i] {
                Some(p) => Some(p as int),
                None => None,
            })
    }

    /// How many bytes were written; after the greatest number comes zero.
    pub closed spec fn written(&self) -> u64 {
        self.bytes
    }

    /// Plans the recording of a medium with these streams.
    pub fn plan(media: Vec<Medium>) -> (r: Result<Recording, RecordError>)
        ensures
            match r {
                Ok(rec) => recorded_count(media@) > 0 && rec.wf() && rec.streams() == media@
                    && rec.written() == 0,
                Err(e) => recorded_count(media@) == 0 && e == RecordError::NoStream,
            },
    {
        let mut mapping: Vec<Option<usize>> = Vec::new();
        let mut outputs: usize = 0;
        let mut i: usize = 0;
        while i < media.len()
            invariant
                i <= media@.len(),
                mapping@.len() == i,
                outputs == recorded_count(media@.take(i as int)),
                outputs <= i,
                forall|k: int|
                    0 <= k < i ==> recorded_place(media@, k) == (match #[trigger] mapping@[k] {
                        Some(p) => Some(p as int),
                        None => None,
                    }),
            decreases media@.len() - i,
        {
            assert(media@.take(i + 1).drop_last() =~= media@.take(i as int));
            match media[i] {
                Medium::Other => {
                    mapping.push(None);
                },
                _ => {
                    mapping.push(Some(outputs));
                    outputs = outputs + 1;
                },
            }
            i = i + 1;
        }
        assert(media@.take(i as int) =~= media@);
        if outputs == 0 {
            Err(RecordError::NoStream)
        } else {
            Ok(Recording { media, mapping, outputs, bytes: 0 })
        }
    }

    /// How many streams are recorded.
    pub fn outputs(&self) -> (n: usize)
        requires
            self.wf(),
        ensures
            n == recorded_count(self.streams()),
    {
        self.outputs
    }

    /// How many bytes were written.
    pub fn bytes_written(&self) -> (n: u64)
        ensures
            n == self.written(),
    {
        self.bytes
    }

    /// Says what to do with what was read; `stop` is set where the user wants no
    /// more.
    pub fn step(&mut self, stop: bool, read: PacketRead) -> (r: RecordStep)
        requires
            old(self).wf(),
        ensures
            final(self).wf(),
            final(self).streams() == old(self).streams(),
            r == record_step(old(self).streams(), stop, read),
            final(self).written() == (match (r, read) {
                (RecordStep::Write(_), PacketRead::Packet { stream, size }) => ((old(self).written()
                    + size) % 0x1_0000_0000_0000_0000) as u64,
                _ => old(self).written(),
            }),
    {
        if stop {
            return RecordStep::Finish;
        }
        match read {
            PacketRead::End => RecordStep::Finish,
            PacketRead::Unreadable => RecordStep::Skip,
            PacketRead::Packet { stream, size } => {
                if stream >= self.mapping.len() {
                    return RecordStep::Skip;
                }
                match self.mapping[stream] {
                    Some(output) => {
                        self.bytes = self.bytes.wrapping_add(size);
                        RecordStep::Write(output)
                    },
                    None => RecordStep::Skip,
                }
            },
        }
    }
}

/// What to do with what was read.
pub open spec fn record_step(media: Seq<Medium>, stop: bool, read: PacketRead) -> RecordStep {
    if stop {
        RecordStep::Finish
    } else {
        match read {
            PacketRead::End => RecordStep::Finish,
            PacketRead::Unreadable => RecordStep::Skip,
            PacketRead::Packet { stream, .. } => match recorded_place(media, stream as int) {
                Some(p) => RecordStep::Write(p as usize),
                None => RecordStep::Skip,
            },
        }
    }
}

/// The time base of a stream of the recording: milliseconds where it has none.
pub fn output_time_base(tb: Option<Rational>) -> (r: Rational)
    ensures
        r == (match tb {
            Some(t) => t,
            None => Rational { num: 1, den: 1000 },
        }),
{
    match tb {
        Some(t) => t,
        None => Rational { num: 1, den: 1000 },
    }
}

// ---- Laws ------------------------------------------------------------------

/// A recording keeps the container of its source where it is a known file, live
/// streams and lists of them go to a transport stream, and all else to Matroska.
/// The query of the source makes no difference.
pub proof fn law_container_suits_the_source(address: Seq<char>, mark: char, rest: Seq<char>)
    requires
        !address.contains('?'),
        !address.contains('#'),
        mark == '?' || mark == '#',
    ensures
        container_for(address + seq![mark] + rest) == container_for(address),
        ({
            let s = lowered(address);
            &&& contains(s, ".m3u"@) ==> container_for(address) == "ts"@
            &&& ends_with(s, ".ts"@) ==> container_for(address) == "ts"@
            &&& !contains(s, ".m3u"@) && (ends_with(s, ".mp4"@) || ends_with(s, ".m4v"@)
                || ends_with(s, ".mov"@)) ==> container_for(address) == "mp4"@
            &&& !contains(s, ".m3u"@) && ends_with(s, ".webm"@) ==> container_for(address)
                == "webm"@
            &&& !contains(s, "."@) ==> container_for(address) == "mkv"@
        }),
{
    let l = lowered(address);
    let whole = address + seq![mark] + rest;
    assert(lowered(whole) == l + seq![mark] + lowered(rest));
    assert forall|c: char| c == '?' || c == '#' implies !#[trigger] l.contains(c) by {
        if l.contains(c) {
            let k = choose|k: int| 0 <= k < l.len() && l[k] == c;
            assert(address[k] == c);
            assert(address.contains(address[k]));
        }
    }
    law_query_is_cut_off(l, mark, lowered(rest));
    lemma_suffixes(l);
}

/// How the endings that matter relate.
proof fn lemma_suffixes(s: Seq<char>)
    ensures
        contains(s, ".m3u8"@) ==> contains(s, ".m3u"@),
        ends_with(s, ".mp4"@) || ends_with(s, ".m4v"@) || ends_with(s, ".mov"@) || ends_with(
            s,
            ".webm"@,
        ) ==> !ends_with(s, ".ts"@),
        ends_with(s, ".webm"@) ==> !ends_with(s, ".mp4"@) && !ends_with(s, ".m4v"@) && !ends_with(
            s,
            ".mov"@,
        ),
        contains(s, ".m3u"@) || ends_with(s, ".ts"@) || ends_with(s, ".mp4"@) || ends_with(
            s,
            ".m4v"@,
        ) || ends_with(s, ".mov"@) || ends_with(s, ".webm"@) ==> contains(s, "."@),
{
    reveal_strlit(".m3u8");
    reveal_strlit(".m3u");
    reveal_strlit(".ts");
    reveal_strlit(".mp4");
    reveal_strlit(".m4v");
    reveal_strlit(".mov");
    reveal_strlit(".webm");
    reveal_strlit(".");
    if contains(s, ".m3u8"@) {
        let i = choose|i: int| #[trigger] matches_at(s, ".m3u8"@, i);
        assert(s.subrange(i, i + 4) == s.subrange(i, i + 5).take(4));
        assert(s.subrange(i, i + 5).take(4) == ".m3u"@);
        assert(matches_at(s, ".m3u"@, i));
    }
    lemma_ending(s, ".ts"@);
    lemma_ending(s, ".mp4"@);
    lemma_ending(s, ".m4v"@);
    lemma_ending(s, ".mov"@);
    lemma_ending(s, ".webm"@);
    if contains(s, ".m3u"@) {
        let i = choose|i: int| #[trigger] matches_at(s, ".m3u"@, i);
        assert(s.subrange(i, i + 4)[0] == s[i]);
        assert(s.subrange(i, i + 1) == "."@);
        assert(matches_at(s, "."@, i));
    }
}

proof fn lemma_ending(s: Seq<char>, p: Seq<char>)
    requires
        p.len() > 0,
        p[0] == '.',
    ensures
        ends_with(s, p) ==> s.last() == p.last() && contains(s, "."@),
{
    reveal_strlit(".");
    if ends_with(s, p) {
        let i = s.len() - p.len();
        let t = s.subrange(i, i + p.len());
        assert(t[p.len() - 1] == s.last());
        assert(t[0] == s[i]);
        assert(s.subrange(i, i + 1) == "."@);
        assert(matches_at(s, "."@, i));
    }
}

/// A packet of a stream that is recorded goes to the place of that stream, another one is
/// passed over, and the recording ends with the medium or where it has to stop.
pub proof fn law_packets_are_recorded(media: Seq<Medium>, stream: usize, size: u64)
    requires
        stream < media.len() <= usize::MAX,
    ensures
        media[stream as int] == Medium::Other ==> record_step(
            media,
            false,
            PacketRead::Packet { stream, size },
        ) == RecordStep::Skip,
        media[stream as int] != Medium::Other ==> record_step(
            media,
            false,
            PacketRead::Packet { stream, size },
        ) == RecordStep::Write(recorded_place(media, stream as int)->0 as usize),
        record_step(media, false, PacketRead::End) == RecordStep::Finish,
        record_step(media, false, PacketRead::Unreadable) == RecordStep::Skip,
        record_step(media, true, PacketRead::Packet { stream, size }) == RecordStep::Finish,
        media[0] != Medium::Other ==> recorded_place(media, 0) == Some(0int),
{
    assert(media.take(0) == Seq::<Medium>::empty());
    assert(recorded_count(media.take(0)) == 0);
}

} // verus!
