//! Capture from a video file: reading of the probe's report and the loop that
//! turns decoded bytes into paced frames.
use std::path::PathBuf;

use vstd::prelude::*;
use vstd::slice::slice_subrange;
use vstd::utf8::{decode_utf8, valid_utf8};

use crate::text::{
    after_prefix, chars_of, decimal, law_decimal_reads_back, law_rest_after_prefix,
    law_split_joins_back, lemma_decimal, lemma_split_append,
    lemma_split_first, lemma_split_single, parse_u32, piece_chars, split, split_on, string_of,
    strip_prefix, u32_value,
};
use crate::video::vp8::{
    append_plane, holds_plane, law_plane_sample, law_tight_plane, plane_samples,
};
use crate::video::{i420_len, lemma_even_size, VideoFrame};

verus! {

/// A path of the file system.
#[verifier::external_type_specification]
#[verifier::external_body]
pub struct ExPathBuf(std::path::PathBuf);

/// Configuration for reading a video file.
pub struct FileConfig {
    /// Path to the video file (any format supported by ffmpeg).
    pub path: PathBuf,
    /// Restart playback from the beginning when the file ends.
    pub looping: bool,
}

/// The text of some bytes, with replacement characters where they are not UTF-8.
pub uninterp spec fn lossy_text(bytes: Seq<u8>) -> Seq<char>;

/// `String::from_utf8_lossy`: the text of the bytes. Bytes that are UTF-8 are
/// decoded as they stand; what the others become is left to the name.
#[verifier::external_body]
fn text_of(bytes: &[u8]) -> (text: String)
    ensures
        text@ == lossy_text(bytes@),
        valid_utf8(bytes@) ==> text@ == decode_utf8(bytes@),
{
    String::from_utf8_lossy(bytes).into_owned()
}

/// One field of the probe's report.
#[derive(Debug)]
pub enum ProbeField {
    /// A width, if its text is a number.
    Width(Option<u32>),
    /// A height, if its text is a number.
    Height(Option<u32>),
    /// The text of a frame rate.
    Rate(String),
    /// Anything else.
    Other,
}

/// Whether `field` is what the text of one field says.
pub open spec fn says(text: Seq<char>, field: ProbeField) -> bool {
    match after_prefix(text, "width="@) {
        Some(value) => field == ProbeField::Width(u32_value(value)),
        None => match after_prefix(text, "height="@) {
            Some(value) => field == ProbeField::Height(u32_value(value)),
            None => match after_prefix(text, "r_frame_rate="@) {
                Some(value) => field matches ProbeField::Rate(rate) && rate@ == value,
                None => field == ProbeField::Other,
            },
        },
    }
}

/// The first line of a text, without its line ending; an empty text has none.
pub open spec fn first_line(text: Seq<char>) -> Option<Seq<char>> {
    let lines = split_on(text, '\n');
    let line = lines[0];
    if text.len() == 0 {
        None
    } else if lines.len() > 1 && line.len() > 0 && line.last() == '\r' {
        Some(line.drop_last())
    } else {
        Some(line)
    }
}

/// Whether `fields` are the fields of the report's first line.
pub open spec fn report_says(text: Seq<char>, fields: Option<Seq<ProbeField>>) -> bool {
    match (first_line(text), fields) {
        (None, None) => true,
        (Some(line), Some(found)) => {
            let pieces = split_on(line, '|');
            &&& found.len() == pieces.len()
            &&& forall|i: int|
                0 <= i < pieces.len() ==> says(#[trigger] pieces[i], #[trigger] found[i])
        },
        _ => false,
    }
}

/// Reads one field.
fn read_field(text: &[char]) -> (field: ProbeField)
    ensures
        says(text@, field),
{
    if let Some(value) = strip_prefix(text, "width=") {
        return ProbeField::Width(parse_u32(value.as_slice()));
    }
    if let Some(value) = strip_prefix(text, "height=") {
        return ProbeField::Height(parse_u32(value.as_slice()));
    }
    if let Some(value) = strip_prefix(text, "r_frame_rate=") {
        return ProbeField::Rate(string_of(value.as_slice()));
    }
    ProbeField::Other
}

/// The fields of the first line of the probe's report; an empty report has no
/// line, which means that there is no video stream.
///
/// Format of the line: `stream|width=NNN|height=NNN|r_frame_rate=NUM/DEN`
pub fn report_fields(report: &str) -> (fields: Option<Vec<ProbeField>>)
    ensures
        match fields {
            Some(found) => report_says(report@, Some(found@)),
            None => report_says(report@, None),
        },
{
    let text: Vec<char> = chars_of(report);
    if text.len() == 0 {
        return None;
    }
    let mut lines: Vec<Vec<char>> = split(text.as_slice(), '\n');
    let ghost all = split_on(report@, '\n');
    assert(piece_chars(lines@)[0] == lines@[0]@);
    let several: bool = lines.len() > 1;
    let mut line: Vec<char> = lines.remove(0);
    if several && line.len() > 0 && line[line.len() - 1] == '\r' {
        let ghost whole = line@;
        line.pop();
        assert(line@ =~= whole.drop_last());
    }
    assert(first_line(report@) == Some(line@));
    let pieces: Vec<Vec<char>> = split(line.as_slice(), '|');
    let mut found: Vec<ProbeField> = Vec::new();
    for i in 0..pieces.len()
        invariant
            piece_chars(pieces@) == split_on(line@, '|'),
            found@.len() == i,
            forall|k: int|
                0 <= k < i ==> says(#[trigger] split_on(line@, '|')[k], #[trigger] found@[k]),
    {
        assert(piece_chars(pieces@)[i as int] == pieces@[i as int]@);
        found.push(read_field(pieces[i].as_slice()));
    }
    Some(found)
}

/// The fields of what the probe printed.
pub fn probe_fields(stdout: &[u8]) -> (fields: Option<Vec<ProbeField>>)
    ensures
        match fields {
            Some(found) => report_says(lossy_text(stdout@), Some(found@)),
            None => report_says(lossy_text(stdout@), None),
        },
        valid_utf8(stdout@) ==> match fields {
            Some(found) => report_says(decode_utf8(stdout@), Some(found@)),
            None => report_says(decode_utf8(stdout@), None),
        },
{
    let text: String = text_of(stdout);
    report_fields(text.as_str())
}

/// Why the probe's report cannot be used.
#[derive(Debug, Clone, Copy, PartialEq, Eq, Structural)]
pub enum ProbeError {
    InvalidWidth,
    InvalidHeight,
    InvalidRate,
    MissingWidth,
    MissingHeight,
    MissingRate,
}

/// What a report says of a video: width, height and the index of the field
/// with the frame rate, each as far as it was found.
pub open spec fn collected(fields: Seq<ProbeField>, rates_valid: Seq<bool>) -> Result<
    (Option<u32>, Option<u32>, Option<usize>),
    ProbeError,
>
    decreases fields.len(),
{
    if fields.len() == 0 {
        Ok((None, None, None))
    } else {
        match collected(fields.drop_last(), rates_valid) {
            Err(error) => Err(error),
            Ok((width, height, rate)) => match fields.last() {
                ProbeField::Width(None) => Err(ProbeError::InvalidWidth),
                ProbeField::Width(Some(value)) => Ok((Some(value), height, rate)),
                ProbeField::Height(None) => Err(ProbeError::InvalidHeight),
                ProbeField::Height(Some(value)) => Ok((width, Some(value), rate)),
                ProbeField::Rate(_) => if rates_valid[fields.len() - 1] {
                    Ok((width, height, Some((fields.len() - 1) as usize)))
                } else {
                    Err(ProbeError::InvalidRate)
                },
                ProbeField::Other => Ok((width, height, rate)),
            },
        }
    }
}

/// The width, the height and the index of the frame rate's field, if the report
/// has all three. The first unreadable field decides; of a repeated field the
/// last counts.
pub open spec fn resolved(fields: Seq<ProbeField>, rates_valid: Seq<bool>) -> Result<
    (u32, u32, usize),
    ProbeError,
> {
    match collected(fields, rates_valid) {
        Err(error) => Err(error),
        Ok((None, _, _)) => Err(ProbeError::MissingWidth),
        Ok((_, None, _)) => Err(ProbeError::MissingHeight),
        Ok((_, _, None)) => Err(ProbeError::MissingRate),
        Ok((Some(width), Some(height), Some(rate))) => Ok((width, height, rate)),
    }
}

/// Once a field is unreadable, what follows it does not matter.
proof fn lemma_first_error_stays(fields: Seq<ProbeField>, rates_valid: Seq<bool>, i: int)
    requires
        0 <= i <= fields.len(),
        collected(fields.take(i), rates_valid) is Err,
    ensures
        collected(fields, rates_valid) == collected(fields.take(i), rates_valid),
    decreases fields.len(),
{
    if i == fields.len() {
        assert(fields.take(i) =~= fields);
    } else {
        assert(fields.drop_last().take(i) =~= fields.take(i));
        lemma_first_error_stays(fields.drop_last(), rates_valid, i);
    }
}

/// Decide what the fields of a report say, once the frame rates among them were
/// evaluated: `rates_valid[i]` tells whether field `i` holds a usable rate.
pub fn resolve(fields: &Vec<ProbeField>, rates_valid: &Vec<bool>) -> (outcome: Result<
    (u32, u32, usize),
    ProbeError,
>)
    requires
        rates_valid@.len() == fields@.len(),
    ensures
        outcome == resolved(fields@, rates_valid@),
{
    let mut width: Option<u32> = None;
    let mut height: Option<u32> = None;
    let mut rate: Option<usize> = None;
    for i in 0..fields.len()
        invariant
            rates_valid@.len() == fields@.len(),
            collected(fields@.take(i as int), rates_valid@) == Ok::<
                (Option<u32>, Option<u32>, Option<usize>),
                ProbeError,
            >((width, height, rate)),
    {
        proof {
            let next = fields@.take(i + 1);
            assert(next.drop_last() =~= fields@.take(i as int));
            assert(next.last() == fields@[i as int]);
            if collected(next, rates_valid@) is Err {
                lemma_first_error_stays(fields@, rates_valid@, i + 1);
            }
        }
        match &fields[i] {
            ProbeField::Width(value) => match value {
                Some(v) => {
                    width = Some(*v);
                },
                None => {
                    return Err(ProbeError::InvalidWidth);
                },
            },
            ProbeField::Height(value) => match value {
                Some(v) => {
                    height = Some(*v);
                },
                None => {
                    return Err(ProbeError::InvalidHeight);
                },
            },
            ProbeField::Rate(_) => {
                if !rates_valid[i] {
                    return Err(ProbeError::InvalidRate);
                }
                rate = Some(i);
            },
            ProbeField::Other => {},
        }
    }
    assert(fields@.take(fields@.len() as int) =~= fields@);
    match width {
        None => Err(ProbeError::MissingWidth),
        Some(w) => match height {
            None => Err(ProbeError::MissingHeight),
            Some(h) => match rate {
                None => Err(ProbeError::MissingRate),
                Some(r) => Ok((w, h, r)),
            },
        },
    }
}

/// The numerator and denominator of a rational frame rate ("30/1",
/// "30000/1001"), parted at the first slash; a plain rate ("24") has no
/// denominator.
pub fn split_rate(rate: &str) -> (parts: (String, Option<String>))
    ensures
        ({
            let pieces = split_on(rate@, '/');
            if pieces.len() == 1 {
                parts.0@ == rate@ && parts.1 is None
            } else {
                &&& parts.0@ == pieces[0]
                &&& parts.1 is Some
                &&& rate@ == pieces[0].push('/') + parts.1->0@
            }
        }),
        !parts.0@.contains('/'),
        match parts.1 {
            None => parts.0@ == rate@,
            Some(rest) => rate@ == parts.0@.push('/') + rest@,
        },
{
    let chars: Vec<char> = chars_of(rate);
    let pieces: Vec<Vec<char>> = split(chars.as_slice(), '/');
    assert(piece_chars(pieces@)[0] == pieces@[0]@);
    proof {
        lemma_first_piece(rate@, '/');
        law_split_joins_back(rate@, '/');
        assert forall|j: int| 0 <= j < pieces@[0]@.len() implies pieces@[0]@[j] != '/' by {
            assert(split_on(rate@, '/')[0][j] != '/');
        }
    }
    if pieces.len() == 1 {
        return (string_of(chars.as_slice()), None);
    }
    let start: usize = pieces[0].len() + 1;
    let mut rest: Vec<char> = Vec::new();
    for i in start..chars.len()
        invariant
            start <= i,
            start <= chars@.len(),
            rest@ == chars@.subrange(start as int, i as int),
    {
        assert(chars@.subrange(start as int, i as int).push(chars@[i as int]) =~= chars@.subrange(
            start as int,
            i + 1,
        ));
        rest.push(chars[i]);
    }
    assert(rate@ =~= pieces@[0]@.push('/') + rest@);
    (string_of(pieces[0].as_slice()), Some(string_of(rest.as_slice())))
}

/// The first piece of a split text is what stands before the first separator.
proof fn lemma_first_piece(s: Seq<char>, sep: char)
    ensures
        split_on(s, sep).len() > 0,
        split_on(s, sep).len() == 1 ==> split_on(s, sep)[0] == s,
        split_on(s, sep).len() > 1 ==> {
            let first = split_on(s, sep)[0];
            &&& first.len() < s.len()
            &&& s[first.len() as int] == sep
            &&& s.take(first.len() as int) == first
        },
    decreases s.len(),
{
    if s.len() > 0 {
        let t = s.drop_last();
        lemma_first_piece(t, sep);
        let before = split_on(t, sep);
        if s.last() == sep {
            if before.len() == 1 {
                assert(s.take(t.len() as int) =~= t);
            } else {
                assert(s.take(before[0].len() as int) =~= t.take(before[0].len() as int));
            }
        } else {
            if before.len() == 1 {
                assert(split_on(s, sep)[0] =~= s);
            } else {
                assert(s.take(before[0].len() as int) =~= t.take(before[0].len() as int));
            }
        }
    } else {
        assert(split_on(s, sep)[0] =~= s);
    }
}

/// The line with which the probe describes a video stream.
pub open spec fn report_line(width: u32, height: u32, rate: Seq<char>) -> Seq<char> {
    (("stream"@.push('|') + ("width="@ + decimal(width as nat))).push('|') + ("height="@ + decimal(
        height as nat,
    ))).push('|') + ("r_frame_rate="@ + rate)
}

/// A report of a width, a height and a usable frame rate is read back as it
/// was written, whatever lines follow it.
pub proof fn law_report_reads_back(
    width: u32,
    height: u32,
    rate: Seq<char>,
    rest: Seq<char>,
    fields: Seq<ProbeField>,
    rates_valid: Seq<bool>,
)
    requires
        !rate.contains('|'),
        !rate.contains('\n'),
        rate.len() > 0 ==> rate.last() != '\r',
        report_says(report_line(width, height, rate).push('\n') + rest, Some(fields)),
        rates_valid.len() == fields.len(),
        rates_valid.len() == 4 ==> rates_valid[3],
    ensures
        fields.len() == 4,
        fields[3] matches ProbeField::Rate(text) && text@ == rate,
        resolved(fields, rates_valid) == Ok::<(u32, u32, usize), ProbeError>((width, height, 3usize)),
{
    reveal_strlit("stream");
    reveal_strlit("width=");
    reveal_strlit("height=");
    reveal_strlit("r_frame_rate=");
    lemma_decimal(width as nat);
    lemma_decimal(height as nat);
    law_decimal_reads_back(width);
    law_decimal_reads_back(height);
    let a = "stream"@;
    let b = "width="@ + decimal(width as nat);
    let c = "height="@ + decimal(height as nat);
    let d = "r_frame_rate="@ + rate;
    let line = report_line(width, height, rate);
    assert(!d.contains('|') && !d.contains('\n')) by {
        assert forall|i: int| 0 <= i < d.len() implies d[i] != '|' && d[i] != '\n' by {
            if i >= 13 {
                assert(d[i] == rate[i - 13]);
            }
        }
    }
    lemma_split_single(a, '|');
    lemma_split_append(a, b, '|');
    lemma_split_append(a.push('|') + b, c, '|');
    lemma_split_append((a.push('|') + b).push('|') + c, d, '|');
    let pieces = split_on(line, '|');
    assert(pieces =~= seq![a, b, c, d]);
    assert(!line.contains('\n'));
    assert(line.last() != '\r');
    lemma_split_first(line, rest, '\n');
    assert(first_line(line.push('\n') + rest) == Some(line));
    assert(says(pieces[0], fields[0]));
    assert(says(pieces[1], fields[1]));
    assert(says(pieces[2], fields[2]));
    assert(says(pieces[3], fields[3]));
    assert(a.take(6)[0] != "width="@[0]);
    assert(after_prefix(a, "width="@) is None);
    assert(after_prefix(a, "height="@) is None);
    assert(after_prefix(a, "r_frame_rate="@) is None);
    assert(b.take(6) =~= "width="@);
    assert(b.skip(6) =~= decimal(width as nat));
    assert(c.take(6)[0] != "width="@[0]);
    assert(c.take(7) =~= "height="@);
    assert(c.skip(7) =~= decimal(height as nat));
    assert(d.take(6)[0] != "width="@[0]);
    assert(d.take(7)[0] != "height="@[0]);
    assert(d.take(13) =~= "r_frame_rate="@);
    assert(d.skip(13) =~= rate);
    let f = fields;
    assert(f.drop_last().drop_last().drop_last().drop_last() =~= Seq::<ProbeField>::empty());
    let f1 = f.drop_last().drop_last().drop_last();
    let f2 = f.drop_last().drop_last();
    let f3 = f.drop_last();
    assert(collected(f1, rates_valid) == Ok::<
        (Option<u32>, Option<u32>, Option<usize>),
        ProbeError,
    >((None, None, None))) by {
        assert(f1.last() == f[0]);
        assert(collected(f1.drop_last(), rates_valid) == Ok::<
            (Option<u32>, Option<u32>, Option<usize>),
            ProbeError,
        >((None, None, None)));
    }
    assert(f2.last() == f[1]);
    assert(f3.last() == f[2]);
    assert(f.last() == f[3]);
    assert(collected(f2, rates_valid) == Ok::<
        (Option<u32>, Option<u32>, Option<usize>),
        ProbeError,
    >((Some(width), None, None)));
    assert(collected(f3, rates_valid) == Ok::<
        (Option<u32>, Option<u32>, Option<usize>),
        ProbeError,
    >((Some(width), Some(height), None)));
}

/// What happened to the file reader.
#[derive(Debug)]
pub enum ReaderEvent {
    /// The loop begins; the flag tells whether the path can be passed on as text.
    Begin { path_is_text: bool },
    /// The decoding process runs since `now`.
    Spawned { now: u64 },
    /// The decoding process could not be started.
    SpawnFailed,
    /// The bytes of one whole frame were read.
    Frame { data: Vec<u8> },
    /// No whole frame could be read: the stream ended or failed.
    Ended,
    /// A frame was sent to the dispatch loop; `taken` tells whether it was taken.
    Sent { taken: bool, now: u64 },
    /// The pause between two frames is over.
    Rested,
    /// The decoding process is gone, after it was waited for or killed.
    Reaped,
}

/// What the file reader does next.
#[derive(Debug)]
pub enum ReaderStep {
    /// Start the decoding process.
    Spawn,
    /// Read this many bytes from it.
    Read { len: usize },
    /// Send this frame to the dispatch loop.
    Send(VideoFrame),
    /// Pause for this many nanoseconds, which may be none.
    Rest { nanos: u64 },
    /// Wait for the decoding process to end.
    Wait,
    /// Kill the decoding process.
    Kill,
    /// End the loop.
    Stop,
}

/// Reads decoded frames of a video file at the pace of the video.
///
/// Times are nanoseconds since an arbitrary start.
pub struct FileReader {
    width: u32,
    height: u32,
    period: u64,
    looping: bool,
    deadline: u64,
    killed: bool,
}

/// The state of a [`FileReader`] as its contracts speak of it.
pub struct ReaderView {
    pub width: u32,
    pub height: u32,
    /// Length of a frame in nanoseconds.
    pub period: u64,
    pub looping: bool,
    /// When the next frame is due.
    pub deadline: u64,
    /// Whether the decoding process was killed because nobody takes frames any more.
    pub killed: bool,
}

impl View for FileReader {
    type V = ReaderView;

    closed spec fn view(&self) -> ReaderView {
        ReaderView {
            width: self.width,
            height: self.height,
            period: self.period,
            looping: self.looping,
            deadline: self.deadline,
            killed: self.killed,
        }
    }
}

/// Half of `n`, rounded up.
pub open spec fn half_up(n: int) -> int {
    n / 2 + n % 2
}

/// Number of bytes that are read for one chroma plane: the decoding process
/// rounds the dimensions of the chroma planes up.
pub open spec fn read_chroma_len(width: u32, height: u32) -> int {
    half_up(width as int) * half_up(height as int)
}

/// Number of bytes that are read for one frame.
pub open spec fn read_len(width: u32, height: u32) -> int {
    width * height + 2 * read_chroma_len(width, height)
}

/// The planes of a frame, out of the bytes that were read for it: of an odd
/// dimension, the last chroma row or column is left out.
pub open spec fn planes_read(data: Seq<u8>, width: u32, height: u32) -> Seq<u8> {
    let y = width * height;
    let c = read_chroma_len(width, height);
    let stride = half_up(width as int) as nat;
    let rows = (height / 2) as nat;
    let cols = (width / 2) as nat;
    data.take(y) + plane_samples(data.subrange(y, y + c), stride, rows, cols) + plane_samples(
        data.subrange(y + c, y + 2 * c),
        stride,
        rows,
        cols,
    )
}

/// The bytes of a frame can be told apart and counted.
proof fn lemma_read_len(width: u32, height: u32)
    ensures
        0 <= width * height,
        0 <= read_chroma_len(width, height) <= width * height,
        read_len(width, height) <= width * height * 3,
        holds_plane(
            read_chroma_len(width, height) as nat,
            half_up(width as int) as nat,
            (height / 2) as nat,
            (width / 2) as nat,
        ),
        width % 2 == 0 && height % 2 == 0 ==> read_chroma_len(width, height) == (height / 2) * (
        width / 2) && read_len(width, height) == width * height * 3 / 2,
{
    let w = width as int;
    let h = height as int;
    let m = half_up(w);
    let n = half_up(h);
    assert(0 <= w * h) by (nonlinear_arith)
        requires
            0 <= w,
            0 <= h,
    ;
    assert(0 <= m * n <= w * h) by (nonlinear_arith)
        requires
            0 <= m <= w,
            0 <= n <= h,
    ;
    let rows = h / 2;
    if rows > 0 {
        assert((rows - 1) * m + m <= m * n) by (nonlinear_arith)
            requires
                rows <= n,
                0 <= m,
        ;
    }
    if w % 2 == 0 && h % 2 == 0 {
        lemma_even_size(width as nat, height as nat);
        assert(m * n == n * m) by (nonlinear_arith);
    }
}

/// Computes [`read_len`].
fn frame_bytes(width: u32, height: u32) -> (len: usize)
    requires
        width * height * 3 <= usize::MAX,
    ensures
        len == read_len(width, height),
{
    proof {
        lemma_read_len(width, height);
    }
    let w: usize = width as usize;
    let h: usize = height as usize;
    w * h + 2 * ((w / 2 + w % 2) * (h / 2 + h % 2))
}

/// The planes of a frame, out of the bytes that were read for it.
fn crop_planes(data: Vec<u8>, width: u32, height: u32) -> (planes: Vec<u8>)
    requires
        data@.len() == read_len(width, height),
    ensures
        planes@ == planes_read(data@, width, height),
{
    proof {
        lemma_read_len(width, height);
        assert(data.len() == data@.len());
    }
    if width % 2 == 0 && height % 2 == 0 {
        proof {
            law_even_frames_pass(data@, width, height);
        }
        return data;
    }
    let w: usize = width as usize;
    let h: usize = height as usize;
    let stride: usize = w / 2 + w % 2;
    let y: usize = w * h;
    let c: usize = stride * (h / 2 + h % 2);
    let bytes: &[u8] = data.as_slice();
    let mut planes: Vec<u8> = Vec::new();
    proof {
        assert(h * w == w * h) by (nonlinear_arith);
        if h > 0 {
            assert((h - 1) * w + w == w * h) by (nonlinear_arith);
        }
        law_tight_plane(data@.take(y as int), h as nat, w as nat);
        assert(data@.take(y as int).take(y as int) =~= data@.take(y as int));
        assert(data@.subrange(0, y as int) =~= data@.take(y as int));
    }
    append_plane(&mut planes, slice_subrange(bytes, 0, y), w, h, w);
    append_plane(&mut planes, slice_subrange(bytes, y, y + c), stride, h / 2, w / 2);
    append_plane(&mut planes, slice_subrange(bytes, y + c, y + 2 * c), stride, h / 2, w / 2);
    assert(planes@ =~= planes_read(data@, width, height));
    planes
}

impl ReaderView {
    /// Whether `event` can be handled in this state: a frame has the bytes
    /// that were asked for, and the next deadline can be told.
    pub open spec fn accepts(self, event: ReaderEvent) -> bool {
        match event {
            ReaderEvent::Spawned { now } => now + self.period <= u64::MAX,
            ReaderEvent::Frame { data } => data@.len() == read_len(self.width, self.height),
            ReaderEvent::Sent { taken, now } => taken ==> self.deadline + self.period <= u64::MAX,
            _ => true,
        }
    }

    /// The state after `event`.
    pub open spec fn after(self, event: ReaderEvent) -> ReaderView {
        match event {
            ReaderEvent::Spawned { now } => ReaderView {
                deadline: (now + self.period) as u64,
                ..self
            },
            ReaderEvent::Sent { taken: true, now } => ReaderView {
                deadline: (self.deadline + self.period) as u64,
                ..self
            },
            ReaderEvent::Sent { taken: false, now } => ReaderView { killed: true, ..self },
            _ => self,
        }
    }

    /// Whether `step` is what follows `event` in this state.
    pub open spec fn leads_to(self, event: ReaderEvent, step: ReaderStep) -> bool {
        match event {
            ReaderEvent::Begin { path_is_text } => step == if path_is_text {
                ReaderStep::Spawn
            } else {
                ReaderStep::Stop
            },
            ReaderEvent::Spawned { now } => step matches ReaderStep::Read { len } && len
                == read_len(self.width, self.height),
            ReaderEvent::SpawnFailed => step == ReaderStep::Stop,
            ReaderEvent::Frame { data } => step matches ReaderStep::Send(frame) && frame.width
                == self.width && frame.height == self.height && frame.data@ == planes_read(
                data@,
                self.width,
                self.height,
            ) && frame.well_formed(),
            ReaderEvent::Ended => step == ReaderStep::Wait,
            ReaderEvent::Sent { taken, now } => if !taken {
                step == ReaderStep::Kill
            } else {
                step matches ReaderStep::Rest { nanos } && nanos == if now < self.deadline {
                    self.deadline - now
                } else {
                    0
                }
            },
            ReaderEvent::Rested => step matches ReaderStep::Read { len } && len == read_len(
                self.width,
                self.height,
            ),
            ReaderEvent::Reaped => step == if self.looping && !self.killed {
                ReaderStep::Spawn
            } else {
                ReaderStep::Stop
            },
        }
    }
}

impl FileReader {
    /// Whether the bytes of a frame can be counted.
    pub open spec fn well_formed(&self) -> bool {
        self@.width * self@.height * 3 <= usize::MAX
    }

    /// A reader for frames of the given size, each lasting `period` nanoseconds.
    pub fn new(width: u32, height: u32, period: u64, looping: bool) -> (reader: Self)
        requires
            width * height * 3 <= usize::MAX,
        ensures
            reader.well_formed(),
            reader@ == (ReaderView {
                width,
                height,
                period,
                looping,
                deadline: 0,
                killed: false,
            }),
    {
        FileReader { width, height, period, looping, deadline: 0, killed: false }
    }

    /// Handle one event.
    ///
    /// The file is decoded from its beginning, and again when it ended if the
    /// reader loops. A frame is followed by a pause up to the time the next one
    /// is due; a late frame is followed at once and does not move later deadlines.
    /// The loop ends when the file ended for good, the decoding process cannot be
    /// started or nobody takes frames any more.
    pub fn step(&mut self, event: ReaderEvent) -> (step: ReaderStep)
        requires
            old(self).well_formed(),
            old(self)@.accepts(event),
        ensures
            final(self).well_formed(),
            final(self)@ == old(self)@.after(event),
            old(self)@.leads_to(event, step),
    {
        match event {
            ReaderEvent::Begin { path_is_text } => if path_is_text {
                ReaderStep::Spawn
            } else {
                ReaderStep::Stop
            },
            ReaderEvent::Spawned { now } => {
                self.deadline = now + self.period;
                ReaderStep::Read { len: frame_bytes(self.width, self.height) }
            },
            ReaderEvent::SpawnFailed => ReaderStep::Stop,
            ReaderEvent::Frame { data } => {
                proof {
                    law_layout_kept(data@, self.width, self.height);
                }
                let planes: Vec<u8> = crop_planes(data, self.width, self.height);
                ReaderStep::Send(
                    VideoFrame { width: self.width, height: self.height, data: planes },
                )
            },
            ReaderEvent::Ended => ReaderStep::Wait,
            ReaderEvent::Sent { taken, now } => {
                if !taken {
                    self.killed = true;
                    return ReaderStep::Kill;
                }
                let nanos: u64 = if now < self.deadline {
                    self.deadline - now
                } else {
                    0
                };
                self.deadline = self.deadline + self.period;
                ReaderStep::Rest { nanos }
            },
            ReaderEvent::Rested => ReaderStep::Read { len: frame_bytes(self.width, self.height) },
            ReaderEvent::Reaped => if self.looping && !self.killed {
                ReaderStep::Spawn
            } else {
                ReaderStep::Stop
            },
        }
    }
}

/// The state after a run of taken frames, sent at the given times.
pub open spec fn after_frames(state: ReaderView, sent_at: Seq<u64>) -> ReaderView
    decreases sent_at.len(),
{
    if sent_at.len() == 0 {
        state
    } else {
        after_frames(state, sent_at.drop_last()).after(
            ReaderEvent::Sent { taken: true, now: sent_at.last() },
        )
    }
}

/// Frames are paced without drift: however late single frames were, after `n`
/// of them the next deadline is `n` periods after the first one.
pub proof fn law_no_drift(state: ReaderView, sent_at: Seq<u64>)
    requires
        state.deadline + sent_at.len() * state.period <= u64::MAX,
    ensures
        after_frames(state, sent_at).deadline == state.deadline + sent_at.len() * state.period,
        after_frames(state, sent_at).period == state.period,
    decreases sent_at.len(),
{
    let n = sent_at.len() as int;
    let p = state.period as int;
    if n > 0 {
        assert(n * p == (n - 1) * p + p) by (nonlinear_arith);
        law_no_drift(state, sent_at.drop_last());
    } else {
        assert(0 * p == 0) by (nonlinear_arith);
    }
}

/// A frame that was taken is never followed before it is due: the pause ends at
/// the deadline, or at once if that has passed.
pub proof fn law_paced(state: ReaderView, now: u64, step: ReaderStep)
    requires
        state.leads_to(ReaderEvent::Sent { taken: true, now }, step),
    ensures
        step matches ReaderStep::Rest { nanos } && now + nanos >= state.deadline && (now
            <= state.deadline ==> now + nanos == state.deadline) && (now >= state.deadline ==> nanos
            == 0),
{
}

/// A looping reader starts the file again whenever it ended; one that does not
/// loop never does, and neither does one whose frames nobody takes.
pub proof fn law_loops(state: ReaderView, step: ReaderStep)
    requires
        state.leads_to(ReaderEvent::Reaped, step),
    ensures
        state.looping && !state.killed ==> step == ReaderStep::Spawn,
        !state.looping || state.killed ==> step == ReaderStep::Stop,
{
}

/// Whatever the dimensions of a video, its frames have exactly the planes of I420.
pub proof fn law_layout_kept(data: Seq<u8>, width: u32, height: u32)
    requires
        data.len() == read_len(width, height),
    ensures
        planes_read(data, width, height).len() == i420_len(width as nat, height as nat),
{
    lemma_read_len(width, height);
    let m = (width / 2) as int;
    let n = (height / 2) as int;
    assert(m * n == n * m) by (nonlinear_arith);
}

/// The bytes of a frame with even dimensions, `width * height * 3 / 2` of them, are
/// passed on as they were read.
pub proof fn law_even_frames_pass(data: Seq<u8>, width: u32, height: u32)
    requires
        width % 2 == 0,
        height % 2 == 0,
        data.len() == read_len(width, height),
    ensures
        planes_read(data, width, height) == data,
        data.len() == width * height * 3 / 2,
{
    lemma_read_len(width, height);
    let y = width * height;
    let c = read_chroma_len(width, height);
    let rows = (height / 2) as nat;
    let cols = (width / 2) as nat;
    let u = data.subrange(y, y + c);
    let v = data.subrange(y + c, y + 2 * c);
    law_tight_plane(u, rows, cols);
    law_tight_plane(v, rows, cols);
    assert(u.take(c) =~= u);
    assert(v.take(c) =~= v);
    assert(planes_read(data, width, height) =~= data);
}

/// The first line of a report is what stands before the first line end, without a
/// carriage return before it; a report without a line end is one line, and an
/// empty one has none.
pub proof fn law_first_line(line: Seq<char>, rest: Seq<char>)
    requires
        !line.contains('\n'),
        line.len() > 0 ==> line.last() != '\r',
    ensures
        first_line(line.push('\n') + rest) == Some(line),
        first_line(line.push('\r').push('\n') + rest) == Some(line),
        line.len() > 0 ==> first_line(line) == Some(line),
        line.len() == 0 ==> first_line(line) is None,
{
    lemma_split_first(line, rest, '\n');
    let ending = line.push('\r');
    assert forall|i: int| 0 <= i < ending.len() implies ending[i] != '\n' by {
        if i < line.len() {
            assert(line[i] != '\n');
        }
    }
    lemma_split_first(ending, rest, '\n');
    assert(ending.drop_last() =~= line);
    lemma_split_single(line, '\n');
}

/// A field of the report is told by its name: the text behind `width=` and
/// `height=` is read as a number, that behind `r_frame_rate=` is taken as it is,
/// and a text with none of these names says nothing.
pub proof fn law_field_names(value: Seq<char>, field: ProbeField)
    ensures
        says("width="@ + value, field) ==> field == ProbeField::Width(u32_value(value)),
        says("height="@ + value, field) ==> field == ProbeField::Height(u32_value(value)),
        says("r_frame_rate="@ + value, field) ==> (field matches ProbeField::Rate(rate) && rate@
            == value),
        says(value, field) && (forall|rest: Seq<char>|
            #![trigger "width="@ + rest]
            value != "width="@ + rest && value != "height="@ + rest && value != "r_frame_rate="@
                + rest) ==> field == ProbeField::Other,
{
    reveal_strlit("width=");
    reveal_strlit("height=");
    reveal_strlit("r_frame_rate=");
    let w = "width="@;
    let h = "height="@;
    let r = "r_frame_rate="@;
    law_rest_after_prefix(value, w);
    law_rest_after_prefix(value, h);
    law_rest_after_prefix(value, r);
    assert((h + value)[0] != w[0]);
    assert((h + value).take(6)[0] != w[0]);
    assert((r + value).take(6)[0] != w[0]);
    assert((r + value).take(7)[0] != h[0]);
    if forall|rest: Seq<char>|
        #![trigger "width="@ + rest]
        value != "width="@ + rest && value != "height="@ + rest && value != "r_frame_rate="@
            + rest {
        if after_prefix(value, w) is Some {
            let rest = after_prefix(value, w)->0;
            assert(value != "width="@ + rest);
        }
        if after_prefix(value, h) is Some {
            let rest = after_prefix(value, h)->0;
            assert("width="@ + rest == "width="@ + rest);
            assert(value != "height="@ + rest);
        }
        if after_prefix(value, r) is Some {
            let rest = after_prefix(value, r)->0;
            assert("width="@ + rest == "width="@ + rest);
            assert(value != "r_frame_rate="@ + rest);
        }
    }
}

/// Whether a field can be used.
pub open spec fn is_usable(fields: Seq<ProbeField>, rates_valid: Seq<bool>, i: int) -> bool {
    match fields[i] {
        ProbeField::Width(value) => value is Some,
        ProbeField::Height(value) => value is Some,
        ProbeField::Rate(_) => rates_valid[i],
        ProbeField::Other => true,
    }
}

/// What a report says of width, height and rate is what the last field of each
/// name says, if every field can be used; else the first field that cannot be used
/// tells what is wrong.
pub proof fn law_collected(fields: Seq<ProbeField>, rates_valid: Seq<bool>)
    requires
        fields.len() == rates_valid.len(),
        fields.len() <= usize::MAX,
    ensures
        match collected(fields, rates_valid) {
            Ok((width, height, rate)) => {
                &&& forall|i: int|
                    #![trigger fields[i]]
                    0 <= i < fields.len() ==> is_usable(fields, rates_valid, i)
                &&& match width {
                    Some(value) => exists|i: int|
                        {
                            &&& 0 <= i < fields.len()
                            &&& #[trigger] fields[i] == ProbeField::Width(Some(value))
                            &&& forall|j: int|
                                i < j < fields.len() ==> !(#[trigger] fields[j] is Width)
                        },
                    None => forall|j: int|
                        0 <= j < fields.len() ==> !(#[trigger] fields[j] is Width),
                }
                &&& match height {
                    Some(value) => exists|i: int|
                        {
                            &&& 0 <= i < fields.len()
                            &&& #[trigger] fields[i] == ProbeField::Height(Some(value))
                            &&& forall|j: int|
                                i < j < fields.len() ==> !(#[trigger] fields[j] is Height)
                        },
                    None => forall|j: int|
                        0 <= j < fields.len() ==> !(#[trigger] fields[j] is Height),
                }
                &&& match rate {
                    Some(i) => {
                        &&& i < fields.len()
                        &&& fields[i as int] is Rate
                        &&& forall|j: int|
                            i < j < fields.len() ==> !(#[trigger] fields[j] is Rate)
                    },
                    None => forall|j: int|
                        0 <= j < fields.len() ==> !(#[trigger] fields[j] is Rate),
                }
            },
            Err(error) => exists|i: int|
                {
                    &&& 0 <= i < fields.len()
                    &&& !is_usable(fields, rates_valid, i)
                    &&& forall|j: int|
                        #![trigger fields[j]]
                        0 <= j < i ==> is_usable(fields, rates_valid, j)
                    &&& error == match #[trigger] fields[i] {
                        ProbeField::Width(_) => ProbeError::InvalidWidth,
                        ProbeField::Height(_) => ProbeError::InvalidHeight,
                        _ => ProbeError::InvalidRate,
                    }
                },
        },
    decreases fields.len(),
{
    if fields.len() > 0 {
        let n = fields.len() - 1;
        let f = fields.drop_last();
        let v = rates_valid.drop_last();
        lemma_collected_prefix(f, rates_valid, v);
        law_collected(f, v);
        assert(forall|i: int| 0 <= i < n ==> #[trigger] f[i] == fields[i]);
        assert(forall|i: int| 0 <= i < n ==> #[trigger] v[i] == rates_valid[i]);
        match collected(f, v) {
            Err(error) => {
                let i = choose|i: int|
                    {
                        &&& 0 <= i < f.len()
                        &&& !is_usable(f, v, i)
                        &&& forall|j: int|
                            #![trigger f[j]]
                            0 <= j < i ==> is_usable(f, v, j)
                        &&& error == match #[trigger] f[i] {
                            ProbeField::Width(_) => ProbeError::InvalidWidth,
                            ProbeField::Height(_) => ProbeError::InvalidHeight,
                            _ => ProbeError::InvalidRate,
                        }
                    };
                assert(f[i] == fields[i]);
                assert forall|j: int|
                    #![trigger fields[j]]
                    0 <= j < i implies is_usable(fields, rates_valid, j) by {
                    assert(f[j] == fields[j]);
                }
            },
            Ok((width, height, rate)) => {
                assert forall|i: int|
                    #![trigger fields[i]]
                    0 <= i < n implies is_usable(fields, rates_valid, i) by {
                    assert(f[i] == fields[i]);
                }
                assert(fields[n] == fields.last());
                if width is Some {
                    let value = width->0;
                    let i = choose|i: int|
                        {
                            &&& 0 <= i < f.len()
                            &&& #[trigger] f[i] == ProbeField::Width(Some(value))
                            &&& forall|j: int| i < j < f.len() ==> !(#[trigger] f[j] is Width)
                        };
                    assert(fields[i] == f[i]);
                    assert forall|j: int| i < j < n implies !(#[trigger] fields[j] is Width) by {
                        assert(f[j] == fields[j]);
                    }
                } else {
                    assert forall|j: int| 0 <= j < n implies !(#[trigger] fields[j] is Width) by {
                        assert(f[j] == fields[j]);
                    }
                }
                if height is Some {
                    let value = height->0;
                    let i = choose|i: int|
                        {
                            &&& 0 <= i < f.len()
                            &&& #[trigger] f[i] == ProbeField::Height(Some(value))
                            &&& forall|j: int| i < j < f.len() ==> !(#[trigger] f[j] is Height)
                        };
                    assert(fields[i] == f[i]);
                    assert forall|j: int| i < j < n implies !(#[trigger] fields[j] is Height) by {
                        assert(f[j] == fields[j]);
                    }
                } else {
                    assert forall|j: int| 0 <= j < n implies !(#[trigger] fields[j] is Height) by {
                        assert(f[j] == fields[j]);
                    }
                }
                let from = if rate is Some {
                    rate->0 as int
                } else {
                    -1
                };
                assert forall|j: int| from < j < n implies !(#[trigger] fields[j] is Rate) by {
                    assert(f[j] == fields[j]);
                }
            },
        }
    }
}

/// Whether later rates can be used does not matter to earlier fields.
proof fn lemma_collected_prefix(fields: Seq<ProbeField>, a: Seq<bool>, b: Seq<bool>)
    requires
        fields.len() <= a.len(),
        fields.len() <= b.len(),
        forall|i: int| 0 <= i < fields.len() ==> a[i] == b[i],
    ensures
        collected(fields, a) == collected(fields, b),
    decreases fields.len(),
{
    if fields.len() > 0 {
        lemma_collected_prefix(fields.drop_last(), a, b);
    }
}

/// A report can be used if and only if every field of it can and none of the three
/// is missing; of what is missing, the width is named before the height and the
/// height before the rate.
pub proof fn law_resolved(fields: Seq<ProbeField>, rates_valid: Seq<bool>)
    requires
        fields.len() == rates_valid.len(),
        fields.len() <= usize::MAX,
    ensures
        ({
            let usable = forall|i: int|
                #![trigger fields[i]]
                0 <= i < fields.len() ==> is_usable(fields, rates_valid, i);
            let has_width = exists|i: int| 0 <= i < fields.len() && #[trigger] fields[i] is Width;
            let has_height = exists|i: int| 0 <= i < fields.len() && #[trigger] fields[i] is Height;
            let has_rate = exists|i: int| 0 <= i < fields.len() && #[trigger] fields[i] is Rate;
            let outcome = resolved(fields, rates_valid);
            &&& outcome is Ok <==> usable && has_width && has_height && has_rate
            &&& usable && !has_width ==> outcome == Err::<(u32, u32, usize), ProbeError>(
                ProbeError::MissingWidth,
            )
            &&& usable && has_width && !has_height ==> outcome == Err::<
                (u32, u32, usize),
                ProbeError,
            >(ProbeError::MissingHeight)
            &&& usable && has_width && has_height && !has_rate ==> outcome == Err::<
                (u32, u32, usize),
                ProbeError,
            >(ProbeError::MissingRate)
            &&& match (outcome, collected(fields, rates_valid)) {
                (Ok((width, height, rate)), found) => found == Ok::<
                    (Option<u32>, Option<u32>, Option<usize>),
                    ProbeError,
                >((Some(width), Some(height), Some(rate))),
                (Err(error), Err(first)) => error == first,
                _ => true,
            }
        }),
{
    law_collected(fields, rates_valid);
}

/// What the reader reads for a frame holds the luma and, behind it, two chroma
/// planes whose dimensions are half of the picture's, rounded up. A frame takes
/// its luma as it is, and of each chroma plane the whole blocks, row by row.
pub proof fn law_planes_of_a_frame(data: Seq<u8>, width: u32, height: u32, row: int, col: int)
    requires
        data.len() == read_len(width, height),
        0 <= row < height,
        0 <= col < width,
    ensures
        ({
            let w = width as int;
            let h = height as int;
            let cw = (w + 1) / 2;
            let ch = (h + 1) / 2;
            let planes = planes_read(data, width, height);
            &&& data.len() == w * h + 2 * (cw * ch)
            &&& planes.len() == w * h + 2 * ((w / 2) * (h / 2))
            &&& planes[row * w + col] == data[row * w + col]
            &&& row < h / 2 && col < w / 2 ==> planes[w * h + row * (w / 2) + col] == data[w * h
                + row * cw + col]
            &&& row < h / 2 && col < w / 2 ==> planes[w * h + (w / 2) * (h / 2) + row * (w / 2)
                + col] == data[w * h + cw * ch + row * cw + col]
        }),
{
    lemma_read_len(width, height);
    law_layout_kept(data, width, height);
    let w = width as int;
    let h = height as int;
    let cw = half_up(w);
    let ch = half_up(h);
    assert(cw == (w + 1) / 2);
    assert(ch == (h + 1) / 2);
    let y = w * h;
    let c = read_chroma_len(width, height);
    let m = (w / 2) as int;
    let n = (h / 2) as int;
    assert(m * n == n * m) by (nonlinear_arith);
    assert(row * w + w <= w * h) by (nonlinear_arith)
        requires
            row + 1 <= h,
            0 <= w,
    ;
    assert(0 <= row * w) by (nonlinear_arith)
        requires
            0 <= row,
            0 <= w,
    ;
    if row < n && col < m {
        law_plane_sample(data.subrange(y, y + c), cw as nat, n as nat, m as nat, row, col);
        law_plane_sample(data.subrange(y + c, y + 2 * c), cw as nat, n as nat, m as nat, row, col);
        assert(row * cw + cw <= cw * ch) by (nonlinear_arith)
            requires
                row + 1 <= ch,
                0 <= cw,
        ;
        assert(0 <= row * cw) by (nonlinear_arith)
            requires
                0 <= row,
                0 <= cw,
        ;
    }
}

/// The reader's course: a file whose path can be passed on is decoded from its
/// beginning, frame after frame, each read whole, sent and followed by a pause. The
/// reader waits for the process at the end of the file and kills it when nobody
/// takes its frames.
pub proof fn law_reader_course(state: ReaderView, event: ReaderEvent, step: ReaderStep)
    requires
        state.leads_to(event, step),
    ensures
        ({
            let w = state.width as int;
            let h = state.height as int;
            let len = w * h + 2 * (((w + 1) / 2) * ((h + 1) / 2));
            match event {
                ReaderEvent::Begin { path_is_text: true } => step is Spawn,
                ReaderEvent::Begin { path_is_text: false } => step is Stop,
                ReaderEvent::SpawnFailed => step is Stop,
                ReaderEvent::Spawned { .. } => step matches ReaderStep::Read { len: n } && n == len,
                ReaderEvent::Rested => step matches ReaderStep::Read { len: n } && n == len,
                ReaderEvent::Frame { data } => step matches ReaderStep::Send(frame) && frame.width
                    == state.width && frame.height == state.height && frame.data@ == planes_read(
                    data@,
                    state.width,
                    state.height,
                ),
                ReaderEvent::Ended => step is Wait,
                ReaderEvent::Sent { taken: true, .. } => step is Rest,
                ReaderEvent::Sent { taken: false, .. } => step is Kill,
                ReaderEvent::Reaped => step is Spawn || step is Stop,
            }
        }),
{
    let w = state.width as int;
    let h = state.height as int;
    assert(half_up(w) == (w + 1) / 2);
    assert(half_up(h) == (h + 1) / 2);
}

/// No event changes what is played: size, pace and mode stay. The first deadline is
/// one period after the start, each taken frame moves it by one more, and only a
/// frame that nobody took makes the reader give up.
pub proof fn law_reader_keeps(state: ReaderView, event: ReaderEvent)
    requires
        state.accepts(event),
    ensures
        ({
            let after = state.after(event);
            &&& after.width == state.width
            &&& after.height == state.height
            &&& after.period == state.period
            &&& after.looping == state.looping
            &&& after.killed == (state.killed || (event matches ReaderEvent::Sent { taken, .. }
                && !taken))
            &&& after.deadline == match event {
                ReaderEvent::Spawned { now } => now + state.period,
                ReaderEvent::Sent { taken: true, .. } => state.deadline + state.period,
                _ => state.deadline as int,
            }
        }),
{
}

/// Every event can be handled whose frame has the bytes that were asked for, as
/// long as the times fit 64 bits.
pub proof fn law_reader_accepts(state: ReaderView, event: ReaderEvent)
    requires
        event matches ReaderEvent::Spawned { now } ==> now + state.period <= u64::MAX,
        state.deadline + state.period <= u64::MAX,
        event matches ReaderEvent::Frame { data } ==> data@.len() == state.width * state.height + 2
            * (((state.width + 1) / 2) * ((state.height + 1) / 2)),
    ensures
        state.accepts(event),
{
    let w = state.width as int;
    let h = state.height as int;
    assert(half_up(w) == (w + 1) / 2);
    assert(half_up(h) == (h + 1) / 2);
}

/// A field cannot be used if its number could not be read or its rate is not valid,
/// and in no other case: every number that could be read will do.
pub proof fn law_usable(fields: Seq<ProbeField>, rates_valid: Seq<bool>, i: int)
    ensures
        !is_usable(fields, rates_valid, i) <==> {
            ||| fields[i] == ProbeField::Width(None)
            ||| fields[i] == ProbeField::Height(None)
            ||| fields[i] is Rate && !rates_valid[i]
        },
{
}

/// A line is read field by field: one more field at its end adds what that field
/// says and changes nothing before it. Lines after the first are not read.
pub proof fn law_one_more_field(
    line: Seq<char>,
    field: Seq<char>,
    rest: Seq<char>,
    fields: Seq<ProbeField>,
)
    requires
        !line.contains('\n'),
        !field.contains('\n'),
        !field.contains('|'),
        line.len() > 0,
        field.len() > 0 ==> field.last() != '\r',
        report_says((line.push('|') + field).push('\n') + rest, Some(fields)),
    ensures
        fields.len() > 0,
        says(field, fields.last()),
        report_says(line, Some(fields.drop_last())),
        report_says(line.push('|') + field, Some(fields)),
{
    let whole = line.push('|') + field;
    assert forall|i: int| 0 <= i < whole.len() implies whole[i] != '\n' by {
        if i < line.len() {
            assert(line[i] != '\n');
        } else if i > line.len() {
            assert(field[i - line.len() - 1] != '\n');
        }
    }
    assert(whole.last() != '\r');
    lemma_split_first(whole, rest, '\n');
    lemma_split_single(whole, '\n');
    lemma_split_single(line, '\n');
    lemma_split_append(line, field, '|');
    let before = split_on(line, '|');
    let pieces = split_on(whole, '|');
    assert(pieces == before.push(field));
    let text = whole.push('\n') + rest;
    assert(first_line(text) == Some(whole));
    assert(first_line(whole) == Some(whole));
    assert(first_line(line) == Some(line));
    assert(says(pieces[before.len() as int], fields[before.len() as int]));
    let f = fields.drop_last();
    assert forall|i: int| 0 <= i < before.len() implies says(
        #[trigger] before[i],
        #[trigger] f[i],
    ) by {
        assert(says(pieces[i], fields[i]));
    }
}

/// A line without a bar is a single field.
pub proof fn law_single_field(field: Seq<char>, fields: Seq<ProbeField>)
    requires
        !field.contains('\n'),
        !field.contains('|'),
        field.len() > 0,
        report_says(field, Some(fields)),
    ensures
        fields.len() == 1,
        says(field, fields[0]),
{
    lemma_split_single(field, '\n');
    lemma_split_single(field, '|');
    assert(split_on(field, '|')[0] == field);
    assert(says(split_on(field, '|')[0], fields[0]));
}

} // verus!
