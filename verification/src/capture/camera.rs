//! Live camera capture, as far as it can be worked out without a camera.
//!
//! Cameras are listed and read through ffmpeg. What it prints is understood
//! here, and what it has to be told is put together here; running it is the
//! caller's part.

use vstd::prelude::*;
use vstd::slice::slice_subrange;

use crate::config::{texts_view, CaptureConfig};
use crate::decimal::{decimal, decimal_of, digit, law_decimal_reads_back, unsigned_of, unsigned_value};
use crate::error::{DetectError, ErrorView};
use crate::text::{
    after_prefix, chars_of, find, find_spec, index_from, index_spec, is_white, last_index_of, last_index_spec,
    law_a_split_comes_together, law_the_first_of_a_character, law_the_last_of_a_character, lines, lines_spec, owned, pad, padded, places, sort_order, sorts, spells, split_once, split_once_spec, string_of,
    strip_prefix, strs_view, trim, trim_spec, white, without_return,
};
use crate::types::Frame;

verus! {

broadcast use vstd::string::group_string_axioms;

/// A capture device as the platform reports it.
#[derive(Debug, Clone, PartialEq, Eq)]
pub struct CameraDevice {
    /// Position in the enumeration: this is what `camera:<index>` selects.
    pub index: usize,
    pub name: String,
    /// The unambiguous device path. Preferred over `name`, which is not
    /// guaranteed unique when two identical webcams are plugged in.
    pub alt_name: Option<String>,
}

/// What a [`CameraDevice`] says.
pub ghost struct DeviceView {
    pub index: usize,
    pub name: Seq<char>,
    pub alt_name: Option<Seq<char>>,
}

impl View for CameraDevice {
    type V = DeviceView;

    open spec fn view(&self) -> DeviceView {
        DeviceView {
            index: self.index,
            name: self.name@,
            alt_name: match self.alt_name {
                Some(s) => Some(s@),
                None => None,
            },
        }
    }
}

/// What a list of devices says, in order.
pub open spec fn devices_view(s: Seq<CameraDevice>) -> Seq<DeviceView> {
    s.map_values(|d: CameraDevice| d@)
}

impl DeviceView {
    /// What ffmpeg is told to open.
    pub open spec fn selected(self) -> Seq<char> {
        match self.alt_name {
            Some(alt) => alt,
            None => self.name,
        }
    }
}

impl CameraDevice {
    /// What to hand ffmpeg after `video=`.
    pub fn selector(&self) -> (r: &str)
        ensures
            r@ == self@.selected(),
    {
        match &self.alt_name {
            Some(alt) => alt.as_str(),
            None => self.name.as_str(),
        }
    }

    /// A copy that says the same.
    pub fn duplicate(&self) -> (r: Self)
        ensures
            r@ == self@,
    {
        CameraDevice {
            index: self.index,
            name: self.name.clone(),
            alt_name: match &self.alt_name {
                Some(alt) => Some(alt.clone()),
                None => None,
            },
        }
    }
}

// ---------------------------------------------------------------------------
// lines as ffmpeg prints them
// ---------------------------------------------------------------------------

/// A line without the bracketed tag that ffmpeg puts in front.
pub open spec fn untagged(line: Seq<char>) -> Seq<char> {
    let t = trim_spec(line);
    if t.len() > 0 && t[0] == '[' {
        match find_spec(t, "] "@) {
            Some(i) => trim_spec(t.skip(i + 2)),
            None => t,
        }
    } else {
        t
    }
}

/// Strip the `[in#0 @ 0x...]` or `[dshow @ 0x...]` tag of a line. The tag has
/// changed across versions, so only its shape counts.
pub fn strip_ffmpeg_prefix<'a>(line: &'a [char]) -> (r: &'a [char])
    ensures
        r@ == untagged(line@),
{
    let t = trim(line);
    let n: usize = t.len();
    if n > 0 && t[0] == '[' {
        let close = chars_of("] ");
        proof {
            reveal_strlit("] ");
            assert("] "@.len() == 2);
        }
        if let Some(i) = find(t, close.as_slice()) {
            let rest = slice_subrange(t, i + 2, n);
            assert(rest@ =~= t@.skip(i + 2));
            return trim(rest);
        }
    }
    t
}

/// The characters up to the first white one.
pub open spec fn word(s: Seq<char>) -> Seq<char>
    decreases s.len(),
{
    if s.len() == 0 || is_white(s[0]) {
        Seq::empty()
    } else {
        seq![s[0]] + word(s.skip(1))
    }
}

proof fn lemma_word(s: Seq<char>, i: int)
    requires
        0 <= i <= s.len(),
        forall|j: int| 0 <= j < i ==> !is_white(s[j]),
        i == s.len() || is_white(s[i]),
    ensures
        word(s) == s.take(i),
    decreases s.len(),
{
    if i > 0 {
        lemma_word(s.skip(1), i - 1);
        assert(seq![s[0]] + s.skip(1).take(i - 1) =~= s.take(i));
    } else {
        assert(s.take(0) =~= Seq::empty());
    }
}

/// The word that directly follows `key` in a line, unless it is empty.
pub open spec fn field_spec(line: Seq<char>, key: Seq<char>) -> Option<Seq<char>> {
    match find_spec(line, key) {
        Some(i) => {
            let field = word(line.skip(i + key.len()));
            if field.len() > 0 {
                Some(field)
            } else {
                None
            }
        },
        None => None,
    }
}

/// Read the word that directly follows `key` in a line.
pub fn field_after<'a>(line: &'a [char], key: &str) -> (r: Option<&'a [char]>)
    ensures
        match r {
            Some(f) => field_spec(line@, key@) == Some(f@),
            None => field_spec(line@, key@) is None,
        },
{
    let needle = chars_of(key);
    let n: usize = line.len();
    let k: usize = needle.len();
    let Some(i) = find(line, needle.as_slice()) else {
        return None;
    };
    let start: usize = i + k;
    let mut end: usize = start;
    while end < n && !white(line[end])
        invariant
            start <= end <= n,
            n == line@.len(),
            forall|j: int| start <= j < end ==> !is_white(line@[j]),
        decreases n - end,
    {
        end = end + 1;
    }
    let field = slice_subrange(line, start, end);
    proof {
        let rest = line@.skip(start as int);
        lemma_word(rest, end - start);
        assert(field@ =~= rest.take(end - start));
    }
    if end > start {
        Some(field)
    } else {
        None
    }
}

/// What stands between the two quotes that enclose a text.
pub open spec fn unquoted(s: Seq<char>) -> Option<Seq<char>> {
    if s.len() >= 2 && s[0] == '"' && s.last() == '"' {
        Some(s.subrange(1, s.len() - 1))
    } else {
        None
    }
}

/// Take off the two quotes that enclose a text.
pub fn unquote<'a>(s: &'a [char]) -> (r: Option<&'a [char]>)
    ensures
        match r {
            Some(t) => unquoted(s@) == Some(t@),
            None => unquoted(s@) is None,
        },
{
    let n: usize = s.len();
    if n >= 2 && s[0] == '"' && s[n - 1] == '"' {
        Some(slice_subrange(s, 1, n - 1))
    } else {
        None
    }
}

// ---------------------------------------------------------------------------
// DirectShow
// ---------------------------------------------------------------------------

/// The devices found so far, and whether the last line was one of them.
pub ghost struct Found {
    pub devices: Seq<DeviceView>,
    pub kept: bool,
}

/// The name in a line such as `"Integrated Webcam" (video)`, if the line lists a
/// device that is not a microphone. Virtual cameras are listed as `(none)`.
pub open spec fn dshow_name(line: Seq<char>) -> Option<Seq<char>> {
    match last_index_spec(line, '"') {
        Some(close) => if line[0] != '"' || close == 0 {
            None
        } else {
            let kind = trim_spec(line.skip(close + 1));
            if kind == "(video)"@ || kind == "(none)"@ || kind.len() == 0 {
                Some(line.subrange(1, close))
            } else {
                None
            }
        },
        None => None,
    }
}

impl Found {
    /// What one more line adds. An alternative name belongs to the device listed
    /// just before it, and to none if that was a microphone.
    pub open spec fn dshow(self, raw: Seq<char>) -> Found {
        let line = untagged(raw);
        match after_prefix(line, "Alternative name "@) {
            Some(alt) => match unquoted(trim_spec(alt)) {
                Some(name) => if self.kept && self.devices.len() > 0 {
                    let last = self.devices.len() - 1;
                    Found {
                        devices: self.devices.update(
                            last,
                            DeviceView { alt_name: Some(name), ..self.devices[last] },
                        ),
                        ..self
                    }
                } else {
                    self
                },
                None => self,
            },
            None => match dshow_name(line) {
                Some(name) => Found {
                    devices: self.devices.push(
                        DeviceView { index: self.devices.len() as usize, name, alt_name: None },
                    ),
                    kept: true,
                },
                None => Found { kept: false, ..self },
            },
        }
    }
}

/// What a listing adds up to, line by line.
pub open spec fn dshow_found(listing: Seq<Seq<char>>) -> Found
    decreases listing.len(),
{
    if listing.len() == 0 {
        Found { devices: Seq::empty(), kept: false }
    } else {
        dshow_found(listing.drop_last()).dshow(listing.last())
    }
}

/// The name in a listed line.
fn dshow_name_of(line: &[char]) -> (r: Option<String>)
    ensures
        match r {
            Some(s) => dshow_name(line@) == Some(s@),
            None => dshow_name(line@) is None,
        },
{
    let n: usize = line.len();
    let Some(close) = last_index_of(line, '"') else {
        return None;
    };
    if line[0] != '"' || close == 0 {
        return None;
    }
    let after = slice_subrange(line, close + 1, n);
    assert(after@ =~= line@.skip(close + 1));
    let kind = trim(after);
    if kind.len() == 0 || spells(kind, "(video)") || spells(kind, "(none)") {
        Some(string_of(slice_subrange(line, 1, close)))
    } else {
        None
    }
}

/// Parse the device list out of what ffmpeg prints.
///
/// Audio devices are dropped, and take up no index.
pub fn parse_dshow_devices(text: &str) -> (r: Vec<CameraDevice>)
    ensures
        devices_view(r@) == dshow_found(lines_spec(text@)).devices,
        forall|i: int| 0 <= i < r@.len() ==> (#[trigger] r@[i]).index == i,
{
    let chars = chars_of(text);
    let listing = lines(chars.as_slice());
    let ghost all = lines_spec(text@);
    let mut devices: Vec<CameraDevice> = Vec::new();
    let mut kept: bool = false;
    let n: usize = listing.len();
    assert(devices_view(devices@) =~= Seq::empty());
    assert(all.take(0) =~= Seq::empty());
    for i in 0..n
        invariant
            n == listing@.len(),
            all == listing@.map_values(|l: &[char]| l@),
            devices@.len() <= i,
            (Found { devices: devices_view(devices@), kept }) == dshow_found(all.take(i as int)),
    {
        let ghost before = Found { devices: devices_view(devices@), kept };
        let raw = listing[i];
        assert(all.take(i + 1).drop_last() =~= all.take(i as int));
        assert(all.take(i + 1).last() == raw@);
        let line = strip_ffmpeg_prefix(raw);
        let marker = chars_of("Alternative name ");
        if let Some(alt) = strip_prefix(line, marker.as_slice()) {
            if kept {
                if let Some(name) = unquote(trim(alt)) {
                    let m: usize = devices.len();
                    if m > 0 {
                        let mut last = devices.remove(m - 1);
                        last.alt_name = Some(string_of(name));
                        devices.push(last);
                        assert(devices_view(devices@) =~= before.dshow(raw@).devices);
                    }
                }
            }
        } else {
            match dshow_name_of(line) {
                Some(name) => {
                    let index: usize = devices.len();
                    devices.push(CameraDevice { index, name, alt_name: None });
                    kept = true;
                    assert(devices_view(devices@) =~= before.dshow(raw@).devices);
                },
                None => {
                    kept = false;
                },
            }
        }
        assert(devices_view(devices@) =~= before.dshow(raw@).devices);
    }
    assert(all.take(n as int) =~= all);
    proof {
        law_indices_are_places(all);
        assert forall|i: int| 0 <= i < devices@.len() implies (#[trigger] devices@[i]).index == i by {
            assert(dshow_found(all).devices[i] == devices@[i]@);
        }
    }
    devices
}

/// A device's index is its place in the list, so that `camera:<index>` means
/// what was listed.
pub proof fn law_indices_are_places(listing: Seq<Seq<char>>)
    requires
        listing.len() <= usize::MAX,
    ensures
        dshow_found(listing).devices.len() <= listing.len(),
        forall|i: int|
            0 <= i < dshow_found(listing).devices.len() ==> (#[trigger] dshow_found(listing).devices[i]).index == i,
    decreases listing.len(),
{
    if listing.len() > 0 {
        law_indices_are_places(listing.drop_last());
    }
}

/// Devices listed after `by` others.
pub open spec fn shifted(devices: Seq<DeviceView>, by: nat) -> Seq<DeviceView> {
    devices.map_values(|d: DeviceView| DeviceView { index: (d.index + by) as usize, ..d })
}

/// Whether a listing does not open with an alternative name, which would belong
/// to a device listed before it.
pub open spec fn opens_a_listing(listing: Seq<Seq<char>>) -> bool {
    listing.len() > 0 ==> after_prefix(untagged(listing[0]), "Alternative name "@) is None
}

proof fn lemma_listings_join(a: Seq<Seq<char>>, b: Seq<Seq<char>>)
    requires
        opens_a_listing(b),
        a.len() + b.len() <= usize::MAX,
    ensures
        dshow_found(a + b).devices == dshow_found(a).devices + shifted(
            dshow_found(b).devices,
            dshow_found(a).devices.len(),
        ),
        b.len() > 0 ==> dshow_found(a + b).kept == dshow_found(b).kept,
        dshow_found(b).kept ==> dshow_found(b).devices.len() > 0,
    decreases b.len(),
{
    let by = dshow_found(a).devices.len();
    if b.len() == 0 {
        assert(a + b =~= a);
        assert(shifted(dshow_found(b).devices, by) =~= Seq::empty());
        assert(dshow_found(a).devices + shifted(dshow_found(b).devices, by) =~= dshow_found(a).devices);
    } else {
        let rest = b.drop_last();
        if rest.len() > 0 {
            assert(rest[0] == b[0]);
        }
        lemma_listings_join(a, rest);
        law_indices_are_places(a);
        law_indices_are_places(rest);
        assert((a + b).drop_last() =~= a + rest);
        let raw = b.last();
        assert((a + b).last() == raw);
        let alone = dshow_found(rest);
        let joint = dshow_found(a + rest);
        if rest.len() == 0 {
            assert(raw == b[0]);
            assert(after_prefix(untagged(raw), "Alternative name "@) is None);
        }
        assert(joint.dshow(raw).devices =~= dshow_found(a).devices + shifted(alone.dshow(raw).devices, by));
    }
}

proof fn lemma_trim_last(s: Seq<char>)
    requires
        s.len() > 0,
        is_white(s.last()),
    ensures
        trim_spec(s) == trim_spec(s.drop_last()),
    decreases s.len(),
{
    let t = s.drop_last();
    if is_white(s.first()) {
        if s.len() > 1 {
            lemma_trim_last(s.drop_first());
            assert(t.drop_first() =~= s.drop_first().drop_last());
            assert(t.first() == s.first());
        } else {
            assert(t =~= Seq::empty());
            assert(s.drop_first() =~= Seq::empty());
        }
    } else {
        assert(s.len() > 1);
        assert(t.first() == s.first());
    }
}

proof fn lemma_same_untagged(f: Found, x: Seq<char>, y: Seq<char>)
    requires
        untagged(x) == untagged(y),
    ensures
        f.dshow(x) == f.dshow(y),
{
}

/// A line feed at the end of a text at most adds an empty line, or takes a
/// carriage return off the last one.
proof fn lemma_lines_closed(a: Seq<char>)
    ensures
        ({
            let open = lines_spec(a);
            let closed = lines_spec(a.push('\n'));
            ||| closed == open.push(Seq::empty())
            ||| closed.len() == open.len() && open.len() > 0 && closed.drop_last() == open.drop_last() && untagged(
                closed.last(),
            ) == untagged(open.last())
        }),
    decreases a.len(),
{
    let s = a.push('\n');
    lemma_index_of_feed(a, Seq::empty(), 0);
    assert(a + seq!['\n'] + Seq::empty() =~= s);
    match index_spec(a, '\n') {
        Some(i) => {
            let tail = a.skip(i + 1);
            lemma_lines_closed(tail);
            assert(s.take(i) =~= a.take(i));
            assert(s.skip(i + 1) =~= tail.push('\n'));
            let first = seq![without_return(a.take(i))];
            let open = lines_spec(a);
            let closed = lines_spec(s);
            assert(open == first + lines_spec(tail));
            assert(closed == first + lines_spec(tail.push('\n')));
            if lines_spec(tail.push('\n')) == lines_spec(tail).push(Seq::empty()) {
                assert(closed =~= open.push(Seq::empty()));
            } else {
                assert(closed.drop_last() =~= first + lines_spec(tail.push('\n')).drop_last());
                assert(open.drop_last() =~= first + lines_spec(tail).drop_last());
                assert(closed.last() == lines_spec(tail.push('\n')).last());
                assert(open.last() == lines_spec(tail).last());
            }
        },
        None => {
            assert(s.take(a.len() as int) =~= a);
            assert(s.skip(a.len() as int + 1) =~= Seq::empty());
            assert(lines_spec(Seq::<char>::empty()) =~= Seq::empty());
            assert(lines_spec(s) =~= seq![without_return(a)]);
            if a.len() == 0 {
                assert(a =~= Seq::empty());
                assert(lines_spec(s) =~= lines_spec(a).push(Seq::empty()));
            } else {
                assert(lines_spec(a) =~= seq![a]);
                assert(lines_spec(s).drop_last() =~= lines_spec(a).drop_last());
                if a.last() == '\r' {
                    lemma_trim_last(a);
                }
            }
        },
    }
}

/// The first line feed of a text that is continued after one.
proof fn lemma_index_of_feed(a: Seq<char>, b: Seq<char>, from: int)
    requires
        0 <= from <= a.len(),
    ensures
        index_from(a + seq!['\n'] + b, '\n', from) == (match index_from(a, '\n', from) {
            Some(i) => Some(i),
            None => Some(a.len() as int),
        }),
        match index_from(a, '\n', from) {
            Some(i) => from <= i < a.len() && a[i] == '\n',
            None => true,
        },
    decreases a.len() - from,
{
    let s = a + seq!['\n'] + b;
    if from < a.len() {
        assert(s[from] == a[from]);
        lemma_index_of_feed(a, b, from + 1);
    } else {
        assert(s[from] == '\n');
    }
}

proof fn lemma_lines_join(a: Seq<char>, b: Seq<char>)
    ensures
        lines_spec(a + seq!['\n'] + b) == lines_spec(a.push('\n')) + lines_spec(b),
    decreases a.len(),
{
    let s = a + seq!['\n'] + b;
    let c = a.push('\n');
    lemma_index_of_feed(a, b, 0);
    lemma_index_of_feed(a, Seq::empty(), 0);
    assert(a + seq!['\n'] + Seq::empty() =~= c);
    match index_spec(a, '\n') {
        Some(i) => {
            let tail = a.skip(i + 1);
            lemma_lines_join(tail, b);
            assert(s.take(i) =~= a.take(i));
            assert(c.take(i) =~= a.take(i));
            assert(s.skip(i + 1) =~= tail + seq!['\n'] + b);
            assert(c.skip(i + 1) =~= tail.push('\n'));
            let first = seq![without_return(a.take(i))];
            assert(lines_spec(s) =~= first + (lines_spec(tail.push('\n')) + lines_spec(b)));
            assert(lines_spec(c) =~= first + lines_spec(tail.push('\n')));
        },
        None => {
            let i = a.len() as int;
            assert(s.take(i) =~= a);
            assert(c.take(i) =~= a);
            assert(s.skip(i + 1) =~= b);
            assert(c.skip(i + 1) =~= Seq::empty());
            assert(lines_spec(Seq::<char>::empty()) =~= Seq::empty());
            assert(lines_spec(c) =~= seq![without_return(a)]);
        },
    }
}

proof fn lemma_line_count(s: Seq<char>)
    ensures
        lines_spec(s).len() <= s.len(),
    decreases s.len(),
{
    if s.len() > 0 {
        match index_spec(s, '\n') {
            Some(i) => {
                if 0 <= i < s.len() {
                    lemma_line_count(s.skip(i + 1));
                }
            },
            None => {},
        }
    }
}

/// The devices of two listings printed one after the other are those of the
/// first and then those of the second, numbered on. Only a second listing that
/// opens with an alternative name says something about the first.
pub proof fn law_joined_listings_list_both(a: Seq<char>, b: Seq<char>)
    requires
        a.len() + b.len() < usize::MAX,
        opens_a_listing(lines_spec(b)),
    ensures
        dshow_found(lines_spec(a + seq!['\n'] + b)).devices == dshow_found(lines_spec(a)).devices + shifted(
            dshow_found(lines_spec(b)).devices,
            dshow_found(lines_spec(a)).devices.len(),
        ),
{
    let open = lines_spec(a);
    let closed = lines_spec(a.push('\n'));
    lemma_lines_join(a, b);
    lemma_lines_closed(a);
    lemma_line_count(a.push('\n'));
    lemma_line_count(b);
    lemma_listings_join(closed, lines_spec(b));
    assert(dshow_found(closed).devices == dshow_found(open).devices) by {
        if closed == open.push(Seq::empty()) {
            let none = Seq::<char>::empty();
            assert(closed.drop_last() =~= open);
            reveal_strlit("Alternative name ");
            assert("Alternative name "@.len() == 17);
            assert(trim_spec(none) == none);
            assert(last_index_spec(none, '"') is None);
        } else {
            lemma_same_untagged(dshow_found(open.drop_last()), closed.last(), open.last());
        }
    }
}

/// One mode the camera claims to support.
#[derive(Debug, Clone, PartialEq, Eq)]
pub struct CameraFormat {
    /// `mjpeg`, `yuyv422`, ...
    pub codec: String,
    pub width: u32,
    pub height: u32,
    /// Frames per second as the device states them, if it does.
    pub fps: Option<String>,
}

/// What a [`CameraFormat`] says.
pub ghost struct FormatView {
    pub codec: Seq<char>,
    pub width: u32,
    pub height: u32,
    pub fps: Option<Seq<char>>,
}

impl View for CameraFormat {
    type V = FormatView;

    open spec fn view(&self) -> FormatView {
        FormatView {
            codec: self.codec@,
            width: self.width,
            height: self.height,
            fps: match self.fps {
                Some(s) => Some(s@),
                None => None,
            },
        }
    }
}

/// What a list of formats says, in order.
pub open spec fn formats_view(s: Seq<CameraFormat>) -> Seq<FormatView> {
    s.map_values(|f: CameraFormat| f@)
}

impl CameraFormat {
    /// The mode on one line, with the frame rate reading as `fps`.
    pub fn to_string(&self, fps: &str) -> (r: String)
        ensures
            r@ == padded(self.codec@, 10) + " "@ + size_text(self.width, self.height) + " @ "@ + fps@ + " fps"@,
    {
        pad(self.codec.as_str(), 10).concat(" ").concat(size_of(self.width, self.height).as_str()).concat(
            " @ ",
        ).concat(fps).concat(" fps")
    }
}

/// A size such as `1280x720`.
pub open spec fn size_text(width: u32, height: u32) -> Seq<char> {
    decimal(width as nat) + "x"@ + decimal(height as nat)
}

fn size_of(width: u32, height: u32) -> (r: String)
    ensures
        r@ == size_text(width, height),
{
    decimal_of(width as u64).concat("x").concat(decimal_of(height as u64).as_str())
}

/// The width and height in a text such as `1280x720`.
pub open spec fn size_named(s: Seq<char>) -> Option<(u32, u32)> {
    match split_once_spec(s, 'x') {
        Some((w, h)) => match (unsigned_value(w, u32::MAX as nat), unsigned_value(h, u32::MAX as nat)) {
            (Some(w), Some(h)) => Some((w as u32, h as u32)),
            _ => None,
        },
        None => None,
    }
}

/// The mode that a line lists, at its ceiling rather than its floor.
pub open spec fn dshow_format(raw: Seq<char>) -> Option<FormatView> {
    let line = untagged(raw);
    let codec = match field_spec(line, "vcodec="@) {
        Some(c) => Some(c),
        None => field_spec(line, "pixel_format="@),
    };
    let tail = match find_spec(line, "max "@) {
        Some(i) => line.skip(i),
        None => line,
    };
    match (codec, field_spec(tail, "s="@)) {
        (Some(codec), Some(size)) => match size_named(size) {
            Some((width, height)) => Some(
                FormatView { codec, width, height, fps: field_spec(tail, "fps="@) },
            ),
            None => None,
        },
        _ => None,
    }
}

/// The modes that a listing names, in order.
pub open spec fn dshow_formats(listing: Seq<Seq<char>>) -> Seq<FormatView>
    decreases listing.len(),
{
    if listing.len() == 0 {
        Seq::empty()
    } else {
        let before = dshow_formats(listing.drop_last());
        match dshow_format(listing.last()) {
            Some(f) => before.push(f),
            None => before,
        }
    }
}

fn read_size(s: &[char]) -> (r: Option<(u32, u32)>)
    ensures
        r == size_named(s@),
{
    let Some((w, h)) = split_once(s, 'x') else {
        return None;
    };
    let w = unsigned_of(string_of(w).as_str(), u32::MAX as u64);
    let h = unsigned_of(string_of(h).as_str(), u32::MAX as u64);
    match (w, h) {
        (Some(w), Some(h)) => Some((w as u32, h as u32)),
        _ => None,
    }
}

fn read_format(raw: &[char]) -> (r: Option<CameraFormat>)
    ensures
        match r {
            Some(f) => dshow_format(raw@) == Some(f@),
            None => dshow_format(raw@) is None,
        },
{
    let line = strip_ffmpeg_prefix(raw);
    let n: usize = line.len();
    let codec = match field_after(line, "vcodec=") {
        Some(c) => c,
        None => match field_after(line, "pixel_format=") {
            Some(c) => c,
            None => {
                return None;
            },
        },
    };
    let marker = chars_of("max ");
    let tail = match find(line, marker.as_slice()) {
        Some(i) => slice_subrange(line, i, n),
        None => line,
    };
    proof {
        if let Some(i) = find_spec(line@, "max "@) {
            assert(tail@ =~= line@.skip(i));
        }
    }
    let Some(size) = field_after(tail, "s=") else {
        return None;
    };
    let Some((width, height)) = read_size(size) else {
        return None;
    };
    let fps = match field_after(tail, "fps=") {
        Some(f) => Some(string_of(f)),
        None => None,
    };
    Some(CameraFormat { codec: string_of(codec), width, height, fps })
}

/// Parse the list of modes out of what ffmpeg prints. Lines look like:
///
/// ```text
/// vcodec=mjpeg  min s=1280x720 fps=30 max s=1280x720 fps=30
/// pixel_format=yuyv422  min s=640x480 fps=30 max s=640x480 fps=30
/// ```
pub fn parse_dshow_formats(text: &str) -> (r: Vec<CameraFormat>)
    ensures
        formats_view(r@) == dshow_formats(lines_spec(text@)),
{
    let chars = chars_of(text);
    let listing = lines(chars.as_slice());
    let ghost all = lines_spec(text@);
    let mut formats: Vec<CameraFormat> = Vec::new();
    let n: usize = listing.len();
    assert(formats_view(formats@) =~= Seq::empty());
    assert(all.take(0) =~= Seq::empty());
    for i in 0..n
        invariant
            n == listing@.len(),
            all == listing@.map_values(|l: &[char]| l@),
            formats_view(formats@) == dshow_formats(all.take(i as int)),
    {
        let ghost before = formats_view(formats@);
        assert(all.take(i + 1).drop_last() =~= all.take(i as int));
        assert(all.take(i + 1).last() == listing@[i as int]@);
        if let Some(f) = read_format(listing[i]) {
            let ghost v = f@;
            formats.push(f);
            assert(formats_view(formats@) =~= before.push(v));
        }
    }
    assert(all.take(n as int) =~= all);
    formats
}

/// What a platform that cannot be asked is taken to support.
pub open spec fn usual_formats() -> Seq<FormatView> {
    seq![
        FormatView { codec: "raw"@, width: 1280, height: 720, fps: Some("30"@) },
        FormatView { codec: "raw"@, width: 640, height: 480, fps: Some("30"@) },
    ]
}

/// Modes a device claims to support. `printed` is what ffmpeg printed about it,
/// on a platform where it can be asked.
pub fn list_formats(printed: Option<&str>) -> (r: Vec<CameraFormat>)
    ensures
        formats_view(r@) == (match printed {
            Some(text) => dshow_formats(lines_spec(text@)),
            None => usual_formats(),
        }),
{
    match printed {
        Some(text) => parse_dshow_formats(text),
        None => {
            let mut r: Vec<CameraFormat> = Vec::new();
            r.push(CameraFormat { codec: owned("raw"), width: 1280, height: 720, fps: Some(owned("30")) });
            r.push(CameraFormat { codec: owned("raw"), width: 640, height: 480, fps: Some(owned("30")) });
            assert(formats_view(r@) =~= usual_formats());
            r
        },
    }
}

// ---------------------------------------------------------------------------
// AVFoundation
// ---------------------------------------------------------------------------

/// How far into an AVFoundation listing the reader is.
pub ghost struct Section {
    pub devices: Seq<DeviceView>,
    pub video: bool,
    pub over: bool,
}

/// The device in a line such as `[AVFoundation ...] [0] FaceTime Camera`. The
/// number is its position in AVFoundation's own enumeration, and what it is
/// opened by.
pub open spec fn avfoundation_device(line: Seq<char>) -> Option<DeviceView> {
    match last_index_spec(line, '[') {
        Some(open) => {
            let rest = line.skip(open);
            match index_spec(rest, ']') {
                Some(close) => {
                    let name = trim_spec(rest.skip(close + 1));
                    match unsigned_value(rest.subrange(1, close), usize::MAX as nat) {
                        Some(index) => if name.len() > 0 {
                            Some(DeviceView { index: index as usize, name, alt_name: None })
                        } else {
                            None
                        },
                        None => None,
                    }
                },
                None => None,
            }
        },
        None => None,
    }
}

impl Section {
    /// What one more line adds. Nothing counts before the video devices or after
    /// the audio devices begin.
    pub open spec fn read(self, line: Seq<char>) -> Section {
        if self.over {
            self
        } else if find_spec(line, "AVFoundation video devices:"@) is Some {
            Section { video: true, ..self }
        } else if find_spec(line, "AVFoundation audio devices:"@) is Some {
            Section { over: true, ..self }
        } else if self.video {
            match avfoundation_device(line) {
                Some(d) => Section { devices: self.devices.push(d), ..self },
                None => self,
            }
        } else {
            self
        }
    }
}

/// What a listing adds up to, line by line.
pub open spec fn avfoundation_found(listing: Seq<Seq<char>>) -> Section
    decreases listing.len(),
{
    if listing.len() == 0 {
        Section { devices: Seq::empty(), video: false, over: false }
    } else {
        avfoundation_found(listing.drop_last()).read(listing.last())
    }
}

fn read_avfoundation_device(line: &[char]) -> (r: Option<CameraDevice>)
    ensures
        match r {
            Some(d) => avfoundation_device(line@) == Some(d@),
            None => avfoundation_device(line@) is None,
        },
{
    let n: usize = line.len();
    let Some(open) = last_index_of(line, '[') else {
        return None;
    };
    let rest = slice_subrange(line, open, n);
    assert(rest@ =~= line@.skip(open as int));
    let m: usize = rest.len();
    let Some(close) = crate::text::index_of(rest, ']') else {
        return None;
    };
    assert(rest@[0] == '[');
    let number = slice_subrange(rest, 1, close);
    let Some(index) = unsigned_of(string_of(number).as_str(), usize::MAX as u64) else {
        return None;
    };
    let after = slice_subrange(rest, close + 1, m);
    assert(after@ =~= rest@.skip(close + 1));
    let name = trim(after);
    if name.len() == 0 {
        return None;
    }
    Some(CameraDevice { index: index as usize, name: string_of(name), alt_name: None })
}

/// Whether a line mentions a text.
fn mentions(line: &[char], text: &str) -> (r: bool)
    ensures
        r == (find_spec(line@, text@) is Some),
{
    let needle = chars_of(text);
    find(line, needle.as_slice()).is_some()
}

/// Parse the device list out of what ffmpeg prints on macOS.
pub fn parse_avfoundation_devices(text: &str) -> (r: Vec<CameraDevice>)
    ensures
        devices_view(r@) == avfoundation_found(lines_spec(text@)).devices,
{
    let chars = chars_of(text);
    let listing = lines(chars.as_slice());
    let ghost all = lines_spec(text@);
    let mut devices: Vec<CameraDevice> = Vec::new();
    let mut video: bool = false;
    let mut over: bool = false;
    let n: usize = listing.len();
    assert(devices_view(devices@) =~= Seq::empty());
    assert(all.take(0) =~= Seq::empty());
    for i in 0..n
        invariant
            n == listing@.len(),
            all == listing@.map_values(|l: &[char]| l@),
            (Section { devices: devices_view(devices@), video, over }) == avfoundation_found(all.take(i as int)),
    {
        let ghost before = devices_view(devices@);
        let line = listing[i];
        assert(all.take(i + 1).drop_last() =~= all.take(i as int));
        assert(all.take(i + 1).last() == line@);
        if !over {
            if mentions(line, "AVFoundation video devices:") {
                video = true;
            } else if mentions(line, "AVFoundation audio devices:") {
                over = true;
            } else if video {
                if let Some(d) = read_avfoundation_device(line) {
                    let ghost v = d@;
                    devices.push(d);
                    assert(devices_view(devices@) =~= before.push(v));
                }
            }
        }
    }
    assert(all.take(n as int) =~= all);
    devices
}

// ---------------------------------------------------------------------------
// Video4Linux
// ---------------------------------------------------------------------------

/// One entry of the kernel's list of video devices.
#[derive(Debug, Clone, PartialEq, Eq)]
pub struct VideoNode {
    /// Name of the entry, such as `video0`.
    pub entry: String,
    /// Whether the device file of that name is there.
    pub present: bool,
    /// What the entry says the device is called, if it could be read.
    pub label: Option<String>,
}

/// What a list of entries is called, in order.
pub open spec fn entries_of(nodes: Seq<VideoNode>) -> Seq<Seq<char>> {
    nodes.map_values(|n: VideoNode| n.entry@)
}

/// The device that an entry stands for, when `place` devices are listed before
/// it. The number in the entry's name says which file to open, not which place
/// the device has.
pub open spec fn v4l2_device(node: VideoNode, place: nat) -> Option<DeviceView> {
    match after_prefix(node.entry@, "video"@) {
        Some(digits) => match unsigned_value(digits, usize::MAX as nat) {
            Some(number) => if node.present {
                Some(
                    DeviceView {
                        index: place as usize,
                        name: match node.label {
                            Some(label) => trim_spec(label@),
                            None => "Camera "@ + decimal(number),
                        },
                        alt_name: Some("/dev/"@ + node.entry@),
                    },
                )
            } else {
                None
            },
            None => None,
        },
        None => None,
    }
}

/// The devices of the first `n` entries in the given order.
pub open spec fn v4l2_devices(nodes: Seq<VideoNode>, order: Seq<int>, n: nat) -> Seq<DeviceView>
    decreases n,
{
    if n == 0 {
        Seq::empty()
    } else {
        let before = v4l2_devices(nodes, order, (n - 1) as nat);
        match v4l2_device(nodes[order[n - 1]], before.len()) {
            Some(d) => before.push(d),
            None => before,
        }
    }
}

/// How many numbered device files are looked at.
pub const NUMBERED_FILES: usize = 16;

/// How many of `n` numbered device files are looked at.
pub open spec fn looked_at(n: nat) -> nat {
    if n < NUMBERED_FILES {
        n
    } else {
        NUMBERED_FILES as nat
    }
}

/// The devices whose files are there, in order of their numbers, when the
/// kernel lists none.
pub open spec fn numbered_devices(files: Seq<bool>, n: nat) -> Seq<DeviceView>
    decreases n,
{
    if n == 0 {
        Seq::empty()
    } else {
        let before = numbered_devices(files, (n - 1) as nat);
        if files[n - 1] {
            before.push(
                DeviceView {
                    index: before.len() as usize,
                    name: "Video Device "@ + decimal((n - 1) as nat),
                    alt_name: Some("/dev/video"@ + decimal((n - 1) as nat)),
                },
            )
        } else {
            before
        }
    }
}

fn read_v4l2_device(node: &VideoNode, place: usize) -> (r: Option<CameraDevice>)
    ensures
        match r {
            Some(d) => v4l2_device(*node, place as nat) == Some(d@),
            None => v4l2_device(*node, place as nat) is None,
        },
{
    let entry = chars_of(node.entry.as_str());
    let marker = chars_of("video");
    let Some(digits) = strip_prefix(entry.as_slice(), marker.as_slice()) else {
        return None;
    };
    let Some(number) = unsigned_of(string_of(digits).as_str(), usize::MAX as u64) else {
        return None;
    };
    if !node.present {
        return None;
    }
    let name = match &node.label {
        Some(label) => {
            let chars = chars_of(label.as_str());
            string_of(trim(chars.as_slice()))
        },
        None => owned("Camera ").concat(decimal_of(number).as_str()),
    };
    Some(
        CameraDevice {
            index: place,
            name,
            alt_name: Some(owned("/dev/").concat(node.entry.as_str())),
        },
    )
}

proof fn lemma_v4l2_places(nodes: Seq<VideoNode>, order: Seq<int>, n: nat)
    requires
        n <= usize::MAX,
    ensures
        v4l2_devices(nodes, order, n).len() <= n,
        forall|i: int|
            0 <= i < v4l2_devices(nodes, order, n).len() ==> (#[trigger] v4l2_devices(nodes, order, n)[i]).index == i,
    decreases n,
{
    if n > 0 {
        lemma_v4l2_places(nodes, order, (n - 1) as nat);
    }
}

proof fn lemma_numbered_places(files: Seq<bool>, n: nat)
    requires
        n <= usize::MAX,
    ensures
        numbered_devices(files, n).len() <= n,
        forall|i: int|
            0 <= i < numbered_devices(files, n).len() ==> (#[trigger] numbered_devices(files, n)[i]).index == i,
    decreases n,
{
    if n > 0 {
        lemma_numbered_places(files, (n - 1) as nat);
    }
}

/// Work out the devices from the kernel's list, taken in order of the entries'
/// names, or from the first numbered device files if that gives none. Either
/// way a device's index is its place in the list.
pub fn list_v4l2_devices(nodes: &Vec<VideoNode>, files: &Vec<bool>) -> (r: Vec<CameraDevice>)
    ensures
        exists|order: Seq<int>|
            #[trigger] sorts(entries_of(nodes@), order) && devices_view(r@) == (if v4l2_devices(
                nodes@,
                order,
                nodes@.len(),
            ).len() > 0 {
                v4l2_devices(nodes@, order, nodes@.len())
            } else {
                numbered_devices(files@, looked_at(files@.len()))
            }),
        forall|i: int| 0 <= i < r@.len() ==> (#[trigger] r@[i]).index == i,
{
    let n: usize = nodes.len();
    let mut keys: Vec<&str> = Vec::new();
    for i in 0..n
        invariant
            n == nodes@.len(),
            keys@.len() == i,
            forall|j: int| 0 <= j < i ==> (#[trigger] keys@[j])@ == nodes@[j].entry@,
    {
        keys.push(nodes[i].entry.as_str());
    }
    let order = sort_order(&keys);
    let ghost at = places(order@);
    assert(strs_view(keys@) =~= entries_of(nodes@));
    let mut devices: Vec<CameraDevice> = Vec::new();
    assert(devices_view(devices@) =~= Seq::empty());
    for i in 0..n
        invariant
            n == nodes@.len(),
            order@.len() == n,
            at == places(order@),
            sorts(entries_of(nodes@), at),
            devices_view(devices@) == v4l2_devices(nodes@, at, i as nat),
            devices@.len() == v4l2_devices(nodes@, at, i as nat).len(),
    {
        let ghost before = devices_view(devices@);
        assert(at[i as int] == order@[i as int]);
        let place: usize = devices.len();
        if let Some(d) = read_v4l2_device(&nodes[order[i]], place) {
            let ghost v = d@;
            devices.push(d);
            assert(devices_view(devices@) =~= before.push(v));
        }
    }
    if devices.len() > 0 {
        proof {
            lemma_v4l2_places(nodes@, at, n as nat);
            assert forall|i: int| 0 <= i < devices@.len() implies (#[trigger] devices@[i]).index == i by {
                assert(v4l2_devices(nodes@, at, n as nat)[i] == devices@[i]@);
            }
        }
        return devices;
    }
    let there: usize = files.len();
    let m: usize = if there < NUMBERED_FILES {
        there
    } else {
        NUMBERED_FILES
    };
    for i in 0..m
        invariant
            m == looked_at(files@.len()),
            devices_view(devices@) == numbered_devices(files@, i as nat),
            devices@.len() == numbered_devices(files@, i as nat).len(),
    {
        if files[i] {
            let place: usize = devices.len();
            devices.push(
                CameraDevice {
                    index: place,
                    name: owned("Video Device ").concat(decimal_of(i as u64).as_str()),
                    alt_name: Some(owned("/dev/video").concat(decimal_of(i as u64).as_str())),
                },
            );
            assert(devices_view(devices@) =~= numbered_devices(files@, (i + 1) as nat));
        }
    }
    proof {
        lemma_numbered_places(files@, m as nat);
        assert forall|i: int| 0 <= i < devices@.len() implies (#[trigger] devices@[i]).index == i by {
            assert(numbered_devices(files@, m as nat)[i] == devices@[i]@);
        }
    }
    devices
}

// ---------------------------------------------------------------------------
// choosing and opening
// ---------------------------------------------------------------------------

/// Which way cameras are reached.
#[derive(Debug, Clone, Copy, PartialEq, Eq, Structural)]
pub enum Platform {
    Windows,
    MacOs,
    Linux,
}

/// What the platform was found to say about its cameras.
#[derive(Debug, Clone, PartialEq, Eq)]
pub enum Listing {
    /// What ffmpeg printed when asked for DirectShow devices.
    Windows { printed: String },
    /// What ffmpeg printed when asked for AVFoundation devices.
    MacOs { printed: String },
    /// The kernel's list, and which numbered device files are there.
    Linux { nodes: Vec<VideoNode>, files: Vec<bool> },
}

impl Listing {
    /// Whether `devices` is what a listing names.
    pub open spec fn names(self, devices: Seq<DeviceView>) -> bool {
        match self {
            Listing::Windows { printed } => devices == dshow_found(lines_spec(printed@)).devices,
            Listing::MacOs { printed } => devices == avfoundation_found(lines_spec(printed@)).devices,
            Listing::Linux { nodes, files } => exists|order: Seq<int>|
                #[trigger] sorts(entries_of(nodes@), order) && devices == (if v4l2_devices(
                    nodes@,
                    order,
                    nodes@.len(),
                ).len() > 0 {
                    v4l2_devices(nodes@, order, nodes@.len())
                } else {
                    numbered_devices(files@, looked_at(files@.len()))
                }),
        }
    }

    /// What to say when a listing names no device.
    pub open spec fn nothing_found(self) -> Seq<char> {
        match self {
            Listing::Windows { .. } => "no video capture devices found. Check that the camera is not in use by another app, and that Windows camera privacy settings allow desktop apps"@,
            Listing::MacOs { .. } => "no video capture devices found. Check camera permissions in macOS System Settings"@,
            Listing::Linux { .. } => "no video capture devices found in /dev/video*. Check that camera is plugged in and accessible"@,
        }
    }
}

/// Enumerate video capture devices. A listing without any is an error.
pub fn list_devices(listing: &Listing) -> (r: Result<Vec<CameraDevice>, DetectError>)
    ensures
        match r {
            Ok(devices) => {
                &&& devices@.len() > 0
                &&& listing.names(devices_view(devices@))
                &&& !(listing is MacOs) ==> forall|i: int|
                    0 <= i < devices@.len() ==> (#[trigger] devices@[i]).index == i
            },
            Err(e) => listing.names(Seq::empty()) && e@ == ErrorView::Camera(listing.nothing_found()),
        },
{
    let devices = match listing {
        Listing::Windows { printed } => parse_dshow_devices(printed.as_str()),
        Listing::MacOs { printed } => parse_avfoundation_devices(printed.as_str()),
        Listing::Linux { nodes, files } => list_v4l2_devices(nodes, files),
    };
    assert(listing.names(devices_view(devices@)));
    if devices.len() > 0 {
        return Ok(devices);
    }
    assert(devices_view(devices@) =~= Seq::empty());
    let why = match listing {
        Listing::Windows { .. } => "no video capture devices found. Check that the camera is not in use by another app, and that Windows camera privacy settings allow desktop apps",
        Listing::MacOs { .. } => "no video capture devices found. Check camera permissions in macOS System Settings",
        Listing::Linux { .. } => "no video capture devices found in /dev/video*. Check that camera is plugged in and accessible",
    };
    Err(DetectError::Camera(owned(why)))
}

/// The first device with an index.
pub open spec fn device_at(devices: Seq<DeviceView>, index: u32) -> Option<DeviceView>
    decreases devices.len(),
{
    if devices.len() == 0 {
        None
    } else if devices[0].index == index {
        Some(devices[0])
    } else {
        device_at(devices.skip(1), index)
    }
}

/// One line per device.
pub open spec fn devices_listed(devices: Seq<DeviceView>) -> Seq<char>
    decreases devices.len(),
{
    if devices.len() == 0 {
        Seq::empty()
    } else {
        let d = devices.last();
        let line = "  camera:"@ + decimal(d.index as nat) + "  "@ + d.name;
        if devices.len() == 1 {
            line
        } else {
            devices_listed(devices.drop_last()) + "\n"@ + line
        }
    }
}

fn listed(devices: &Vec<CameraDevice>) -> (r: String)
    ensures
        r@ == devices_listed(devices_view(devices@)),
{
    let mut r = String::new();
    let n: usize = devices.len();
    let ghost all = devices_view(devices@);
    assert(r@ =~= Seq::empty());
    for i in 0..n
        invariant
            n == devices@.len(),
            all == devices_view(devices@),
            r@ == devices_listed(all.take(i as int)),
    {
        let d = &devices[i];
        assert(all.take(i + 1).last() == d@);
        assert(all.take(i + 1).drop_last() =~= all.take(i as int));
        let line = owned("  camera:").concat(decimal_of(d.index as u64).as_str()).concat("  ").concat(
            d.name.as_str(),
        );
        if i == 0 {
            r = line;
        } else {
            r = r.concat("\n").concat(line.as_str());
        }
    }
    assert(all.take(n as int) =~= all);
    r
}

/// Pick the device that the configuration names.
pub fn choose_device(devices: &Vec<CameraDevice>, index: u32) -> (r: Result<CameraDevice, DetectError>)
    ensures
        match r {
            Ok(d) => device_at(devices_view(devices@), index) == Some(d@),
            Err(e) => device_at(devices_view(devices@), index) is None && e@ == ErrorView::Camera(
                "no device at index "@ + decimal(index as nat) + ". Available:\n"@ + devices_listed(
                    devices_view(devices@),
                ),
            ),
        },
{
    let n: usize = devices.len();
    let ghost all = devices_view(devices@);
    assert(all.skip(0) =~= all);
    for i in 0..n
        invariant
            n == devices@.len(),
            all == devices_view(devices@),
            device_at(all.skip(i as int), index) == device_at(all, index),
    {
        assert(all.skip(i as int)[0] == devices@[i as int]@);
        assert(all.skip(i as int).skip(1) =~= all.skip(i + 1));
        if devices[i].index as u64 == index as u64 {
            return Ok(devices[i].duplicate());
        }
    }
    Err(
        DetectError::Camera(
            owned("no device at index ").concat(decimal_of(index as u64).as_str()).concat(
                ". Available:\n",
            ).concat(listed(devices).as_str()),
        ),
    )
}

/// What ffmpeg has to be told to read a device.
pub open spec fn capture_args_spec(platform: Platform, cfg: CaptureConfig, d: DeviceView) -> Seq<Seq<char>> {
    let size = size_text(cfg.width, cfg.height);
    let fps = decimal(cfg.fps as nat);
    match platform {
        Platform::Windows => seq!["-v"@, "error"@, "-nostdin"@, "-f"@, "dshow"@, "-rtbufsize"@, "128M"@] + (
        if cfg.prefer_mjpeg {
            seq!["-vcodec"@, "mjpeg"@]
        } else {
            Seq::empty()
        }) + seq!["-video_size"@, size, "-framerate"@, fps, "-i"@, "video="@ + d.selected()],
        Platform::MacOs => seq![
            "-v"@,
            "error"@,
            "-nostdin"@,
            "-f"@,
            "avfoundation"@,
            "-framerate"@,
            fps,
            "-video_size"@,
            size,
            "-i"@,
            decimal(d.index as nat) + ":none"@,
        ],
        Platform::Linux => seq!["-v"@, "error"@, "-nostdin"@, "-f"@, "v4l2"@] + (if cfg.prefer_mjpeg {
            seq!["-input_format"@, "mjpeg"@]
        } else {
            Seq::empty()
        }) + seq![
            "-video_size"@,
            size,
            "-framerate"@,
            fps,
            "-i"@,
            match d.alt_name {
                Some(alt) => alt,
                None => "/dev/video"@ + decimal(d.index as nat),
            },
        ],
    }
}

/// Put together what ffmpeg has to be told to read a device.
pub fn capture_args(platform: Platform, cfg: &CaptureConfig, device: &CameraDevice) -> (r: Vec<String>)
    ensures
        texts_view(r@) == capture_args_spec(platform, *cfg, device@),
{
    let size = size_of(cfg.width, cfg.height);
    let fps = decimal_of(cfg.fps as u64);
    let mut r: Vec<String> = Vec::new();
    r.push(owned("-v"));
    r.push(owned("error"));
    r.push(owned("-nostdin"));
    r.push(owned("-f"));
    match platform {
        Platform::Windows => {
            r.push(owned("dshow"));
            // DirectShow drops frames without a real-time buffer.
            r.push(owned("-rtbufsize"));
            r.push(owned("128M"));
            if cfg.prefer_mjpeg {
                r.push(owned("-vcodec"));
                r.push(owned("mjpeg"));
            }
            r.push(owned("-video_size"));
            r.push(size);
            r.push(owned("-framerate"));
            r.push(fps);
            r.push(owned("-i"));
            r.push(owned("video=").concat(device.selector()));
        },
        Platform::MacOs => {
            r.push(owned("avfoundation"));
            r.push(owned("-framerate"));
            r.push(fps);
            r.push(owned("-video_size"));
            r.push(size);
            r.push(owned("-i"));
            r.push(decimal_of(device.index as u64).concat(":none"));
        },
        Platform::Linux => {
            r.push(owned("v4l2"));
            if cfg.prefer_mjpeg {
                r.push(owned("-input_format"));
                r.push(owned("mjpeg"));
            }
            r.push(owned("-video_size"));
            r.push(size);
            r.push(owned("-framerate"));
            r.push(fps);
            r.push(owned("-i"));
            r.push(
                match &device.alt_name {
                    Some(alt) => alt.clone(),
                    None => owned("/dev/video").concat(decimal_of(device.index as u64).as_str()),
                },
            );
        },
    }
    assert(texts_view(r@) =~= capture_args_spec(platform, *cfg, device@));
    r
}

/// How an opened camera is called.
pub open spec fn camera_name_spec(d: DeviceView) -> Seq<char> {
    "camera:"@ + decimal(d.index as nat) + " ("@ + d.name + ")"@
}

/// Name an opened camera.
pub fn camera_name(device: &CameraDevice) -> (r: String)
    ensures
        r@ == camera_name_spec(device@),
{
    owned("camera:").concat(decimal_of(device.index as u64).as_str()).concat(" (").concat(
        device.name.as_str(),
    ).concat(")")
}

/// What to say when a camera delivers no first frame.
pub open spec fn open_failure_spec(why: Seq<char>, cfg: CaptureConfig) -> Seq<char> {
    why
        + "\n\nThree things cause this, in order of likelihood:\n1. Another app is holding the camera — OBS, Teams, Zoom, Discord, or a browser tab. Windows lets exactly one process own a webcam. Close it and retry.\n2. The requested mode is not offered. You asked for "@
        + (if cfg.prefer_mjpeg {
        "mjpeg "@
    } else {
        "raw "@
    }) + size_text(cfg.width, cfg.height) + " @ "@ + decimal(cfg.fps as nat)
        + " fps; run `detect-cli devices --formats` and pick a listed combination.\n3. Camera access is off for desktop apps in Windows privacy settings."@
}

/// Explain why a camera delivers no first frame.
pub fn open_failure(why: &str, cfg: &CaptureConfig) -> (r: DetectError)
    ensures
        r@ == ErrorView::Camera(open_failure_spec(why@, *cfg)),
{
    let mode = if cfg.prefer_mjpeg {
        "mjpeg "
    } else {
        "raw "
    };
    DetectError::Camera(
        owned(why).concat(
            "\n\nThree things cause this, in order of likelihood:\n1. Another app is holding the camera — OBS, Teams, Zoom, Discord, or a browser tab. Windows lets exactly one process own a webcam. Close it and retry.\n2. The requested mode is not offered. You asked for ",
        ).concat(mode).concat(size_of(cfg.width, cfg.height).as_str()).concat(" @ ").concat(
            decimal_of(cfg.fps as u64).as_str(),
        ).concat(
            " fps; run `detect-cli devices --formats` and pick a listed combination.\n3. Camera access is off for desktop apps in Windows privacy settings.",
        ),
    )
}

// ---------------------------------------------------------------------------
// the source
// ---------------------------------------------------------------------------

/// An opened camera, apart from the process that delivers its frames.
pub struct CameraSource {
    device: CameraDevice,
    width: u32,
    height: u32,
    fps: u32,
    mjpeg: bool,
    /// The frame read during opening, to prove that the camera delivers.
    primed: Option<Frame>,
}

/// What a [`CameraSource`] remembers.
pub ghost struct CameraState {
    pub device: DeviceView,
    pub width: u32,
    pub height: u32,
    pub fps: u32,
    pub mjpeg: bool,
    pub primed: Option<Frame>,
}

impl View for CameraSource {
    type V = CameraState;

    closed spec fn view(&self) -> CameraState {
        CameraState {
            device: self.device@,
            width: self.width,
            height: self.height,
            fps: self.fps,
            mjpeg: self.mjpeg,
            primed: self.primed,
        }
    }
}

impl CameraSource {
    /// A camera that was asked for a mode and has delivered its first frame.
    pub fn new(cfg: &CaptureConfig, device: CameraDevice, primed: Option<Frame>) -> (r: Self)
        ensures
            r@ == (CameraState {
                device: device@,
                width: cfg.width,
                height: cfg.height,
                fps: cfg.fps,
                mjpeg: cfg.prefer_mjpeg,
                primed,
            }),
    {
        CameraSource {
            device,
            width: cfg.width,
            height: cfg.height,
            fps: cfg.fps,
            mjpeg: cfg.prefer_mjpeg,
            primed,
        }
    }

    /// The frame read during opening, once. After that frames come from the
    /// device.
    pub fn take_primed(&mut self) -> (r: Option<Frame>)
        ensures
            r == old(self)@.primed,
            final(self)@ == (CameraState { primed: None, ..old(self)@ }),
    {
        self.primed.take()
    }

    pub fn device(&self) -> (r: &CameraDevice)
        ensures
            r@ == self@.device,
    {
        &self.device
    }

    pub fn is_mjpeg(&self) -> (r: bool)
        ensures
            r == self@.mjpeg,
    {
        self.mjpeg
    }

    pub fn resolution(&self) -> (r: (u32, u32))
        ensures
            r == (self@.width, self@.height),
    {
        (self.width, self.height)
    }

    pub fn name(&self) -> (r: String)
        ensures
            r@ == camera_name_spec(self@.device),
    {
        camera_name(&self.device)
    }

    /// Declared frame rate.
    pub fn nominal_fps(&self) -> (r: u32)
        ensures
            r == self@.fps,
    {
        self.fps
    }
}

// -- laws -------------------------------------------------------------------

/// A line is read without the tag in front of it, where it has one: what stands
/// behind the first closing bracket with a blank, if the line begins with an
/// opening one.
pub proof fn law_a_tag_is_taken_off(line: Seq<char>)
    ensures
        ({
            let t = trim_spec(line);
            &&& t.len() == 0 || t[0] != '[' ==> untagged(line) == t
            &&& t.len() > 0 && t[0] == '[' && find_spec(t, "] "@) is None ==> untagged(line) == t
            &&& t.len() > 0 && t[0] == '[' ==> (find_spec(t, "] "@) matches Some(i) ==> untagged(line) == trim_spec(
                t.skip(i + 2),
            ))
        }),
{
}

/// A word ends where white space begins, and holds none.
pub proof fn law_a_word_ends_at_white_space(s: Seq<char>)
    ensures
        word(s).len() <= s.len(),
        word(s) == s.take(word(s).len() as int),
        forall|i: int| 0 <= i < word(s).len() ==> !is_white(#[trigger] word(s)[i]),
        word(s).len() < s.len() ==> is_white(s[word(s).len() as int]),
    decreases s.len(),
{
    if s.len() > 0 && !is_white(s[0]) {
        let rest = s.skip(1);
        law_a_word_ends_at_white_space(rest);
        let w = word(rest);
        assert(word(s) =~= s.take(w.len() as int + 1)) by {
            assert forall|i: int| 0 < i < w.len() + 1 implies word(s)[i] == s[i] by {
                assert(w[i - 1] == rest.take(w.len() as int)[i - 1]);
            }
        }
        assert forall|i: int| 0 <= i < word(s).len() implies !is_white(#[trigger] word(s)[i]) by {
            if i > 0 {
                assert(word(s)[i] == w[i - 1]);
            }
        }
        if word(s).len() < s.len() {
            assert(rest[w.len() as int] == s[word(s).len() as int]);
        }
    } else {
        assert(s.take(0) =~= word(s));
    }
}

/// A field is the word that stands directly behind its key, where the key stands
/// first. A key without a word behind it has no field.
pub proof fn law_a_field_stands_behind_its_key(line: Seq<char>, key: Seq<char>)
    ensures
        find_spec(line, key) is None ==> field_spec(line, key) is None,
        find_spec(line, key) matches Some(i) ==> (word(line.skip(i + key.len())).len() == 0 ==> field_spec(line, key)
            is None) && (word(line.skip(i + key.len())).len() > 0 ==> field_spec(line, key) == Some(
            word(line.skip(i + key.len())),
        )),
{
}

/// What is in quotes is what stands between them.
pub proof fn law_quotes_enclose(s: Seq<char>, t: Seq<char>)
    ensures
        unquoted(seq!['"'] + s + seq!['"']) == Some(s),
        unquoted(t) matches Some(r) ==> t == seq!['"'] + r + seq!['"'],
{
    let q = seq!['"'] + s + seq!['"'];
    assert(q.subrange(1, q.len() - 1) =~= s);
    if unquoted(t) is Some {
        assert(t =~= seq!['"'] + t.subrange(1, t.len() - 1) + seq!['"']);
    }
}

/// A device is listed by its name in quotes and what kind of device it is: a
/// camera, one that says nothing of its kind, or one that says it has none. Any
/// other kind is no camera, and what is not in quotes is no device.
pub proof fn law_a_listed_device_is_in_quotes(name: Seq<char>, kind: Seq<char>, line: Seq<char>)
    requires
        !kind.contains('"'),
    ensures
        ({
            let listed = seq!['"'] + name + seq!['"'] + kind;
            let camera = trim_spec(kind) == "(video)"@ || trim_spec(kind) == "(none)"@ || trim_spec(kind).len() == 0;
            &&& camera ==> dshow_name(listed) == Some(name)
            &&& !camera ==> dshow_name(listed) is None
        }),
        line.len() > 0 && line[0] != '"' ==> dshow_name(line) is None,
        dshow_name(seq!['"'] + kind) is None,
        dshow_name(Seq::empty()) is None,
{
    let unclosed = seq!['"'] + kind;
    law_the_last_of_a_character(unclosed, '"');
    assert(unclosed[0] == '"');
    if last_index_spec(unclosed, '"')->0 > 0 {
        assert(kind[last_index_spec(unclosed, '"')->0 - 1] == '"');
        assert(kind.contains('"'));
    }
    let listed = seq!['"'] + name + seq!['"'] + kind;
    let at = name.len() + 1;
    law_the_last_of_a_character(listed, '"');
    law_the_last_of_a_character(line, '"');
    law_the_last_of_a_character(Seq::empty(), '"');
    assert(listed[at as int] == '"');
    let close = last_index_spec(listed, '"')->0;
    if close > at {
        assert(kind[close - at - 1] == listed[close]);
        assert(kind.contains('"'));
    }
    if close < at {
        assert(listed[at as int] != '"');
    }
    assert(listed.skip(close + 1) =~= kind);
    assert(listed.subrange(1, close) =~= name);
}

/// A listing is read line by line. A line that lists a device adds it, at the
/// next place and without another name. A line with another name gives it to the
/// device on the line before. No other line says anything.
pub proof fn law_a_listing_is_read_line_by_line(listing: Seq<Seq<char>>, f: Found, raw: Seq<char>)
    ensures
        dshow_found(Seq::empty()).devices.len() == 0 && !dshow_found(Seq::empty()).kept,
        dshow_found(listing.push(raw)) == dshow_found(listing).dshow(raw),
        ({
            let line = untagged(raw);
            let n = f.dshow(raw);
            let alt = after_prefix(line, "Alternative name "@);
            let given = alt is Some && unquoted(trim_spec(alt->0)) is Some && f.kept && f.devices.len() > 0;
            &&& alt is None ==> (dshow_name(line) matches Some(name) ==> n.kept && n.devices == f.devices.push(
                DeviceView { index: f.devices.len() as usize, name, alt_name: None },
            ))
            &&& alt is None && dshow_name(line) is None ==> !n.kept && n.devices == f.devices
            &&& given ==> n.kept == f.kept && n.devices == f.devices.update(
                f.devices.len() - 1,
                DeviceView { alt_name: unquoted(trim_spec(alt->0)), ..f.devices.last() },
            )
            &&& alt is Some && !given ==> n == f
        }),
{
    assert(listing.push(raw).drop_last() =~= listing);
}

proof fn lemma_decimal_has_only_digits(n: nat, c: char)
    requires
        !('0' <= c && c <= '9'),
    ensures
        !decimal(n).contains(c),
    decreases n,
{
    if n >= 10 {
        lemma_decimal_has_only_digits(n / 10, c);
        let s = decimal(n);
        if s.contains(c) {
            let i = choose|i: int| 0 <= i < s.len() && s[i] == c;
            if i < s.len() - 1 {
                assert(decimal(n / 10)[i] == c);
                assert(decimal(n / 10).contains(c));
            } else {
                assert(s[i] == digit(n % 10));
            }
        }
    } else {
        if decimal(n).contains(c) {
            let i = choose|i: int| 0 <= i < decimal(n).len() && decimal(n)[i] == c;
            assert(decimal(n)[i] == digit(n));
        }
    }
}

/// A size reads back from how it is written, the width first; without an `x`
/// there is none.
pub proof fn law_a_size_reads_back(width: u32, height: u32, s: Seq<char>)
    ensures
        size_text(width, height) == decimal(width as nat) + seq!['x'] + decimal(height as nat),
        size_named(size_text(width, height)) == Some((width, height)),
        !s.contains('x') ==> size_named(s) is None,
        !s.contains('x') ==> forall|h: Seq<char>|
            #[trigger] size_named(s + seq!['x'] + h) == (match (
                unsigned_value(s, 0xffff_ffff),
                unsigned_value(h, 0xffff_ffff),
            ) {
                (Some(w), Some(v)) => Some((w as u32, v as u32)),
                _ => None,
            }),
{
    if !s.contains('x') {
        assert forall|h: Seq<char>| #[trigger] size_named(s + seq!['x'] + h) == (match (
            unsigned_value(s, 0xffff_ffff),
            unsigned_value(h, 0xffff_ffff),
        ) {
            (Some(w), Some(v)) => Some((w as u32, v as u32)),
            _ => None,
        }) by {
            law_a_split_comes_together(s, 'x', s, h);
        }
    }
    reveal_strlit("x");
    assert("x"@ =~= seq!['x']);
    lemma_decimal_has_only_digits(width as nat, 'x');
    law_a_split_comes_together(s, 'x', decimal(width as nat), decimal(height as nat));
    law_decimal_reads_back(width as nat, u32::MAX as nat);
    law_decimal_reads_back(height as nat, u32::MAX as nat);
}

/// A mode is read off its line: the codec, or else the pixel format, and the
/// size and the rate that are given as the largest, or else the first ones. A
/// line without a codec or without a size lists no mode.
pub proof fn law_a_mode_is_read_at_its_largest(listing: Seq<Seq<char>>, raw: Seq<char>)
    ensures
        ({
            let line = untagged(raw);
            let codec = if field_spec(line, "vcodec="@) is Some {
                field_spec(line, "vcodec="@)
            } else {
                field_spec(line, "pixel_format="@)
            };
            let tail = if find_spec(line, "max "@) is Some {
                line.skip(find_spec(line, "max "@)->0)
            } else {
                line
            };
            let size = field_spec(tail, "s="@);
            let named = codec is Some && size is Some && size_named(size->0) is Some;
            &&& named ==> dshow_format(raw) == Some(
                FormatView {
                    codec: codec->0,
                    width: (size_named(size->0)->0).0,
                    height: (size_named(size->0)->0).1,
                    fps: field_spec(tail, "fps="@),
                },
            )
            &&& !named ==> dshow_format(raw) is None
        }),
        dshow_formats(Seq::empty()) == Seq::<FormatView>::empty(),
        dshow_format(raw) matches Some(f) ==> dshow_formats(listing.push(raw)) == dshow_formats(listing).push(f),
        dshow_format(raw) is None ==> dshow_formats(listing.push(raw)) == dshow_formats(listing),
{
    assert(listing.push(raw).drop_last() =~= listing);
}

/// Where a device cannot be asked, two usual modes are taken for granted.
pub proof fn law_usual_modes_are_taken_for_granted()
    ensures
        usual_formats().len() == 2,
        usual_formats()[0] == (FormatView { codec: "raw"@, width: 1280, height: 720, fps: Some("30"@) }),
        usual_formats()[1] == (FormatView { codec: "raw"@, width: 640, height: 480, fps: Some("30"@) }),
{
}

proof fn lemma_unclosed_device(tag: Seq<char>, number: Seq<char>)
    requires
        !number.contains('[') && !number.contains(']'),
    ensures
        avfoundation_device(tag + seq!['['] + number) is None,
{
    let line = tag + seq!['['] + number;
    law_the_last_of_a_character(line, '[');
    assert(line[tag.len() as int] == '[');
    let open = last_index_spec(line, '[')->0;
    if open > tag.len() {
        assert(number[open - tag.len() - 1] == line[open]);
        assert(number.contains('['));
    }
    if open < tag.len() {
        assert(line[tag.len() as int] != '[');
    }
    let rest = line.skip(open);
    assert(rest =~= seq!['['] + number);
    law_the_first_of_a_character(rest, ']');
    if let Some(close) = index_spec(rest, ']') {
        assert(close > 0);
        assert(number[close - 1] == rest[close]);
        assert(number.contains(']'));
    }
}

/// A device is listed behind its number in brackets, and goes by that number and
/// by the name behind it. Without a number, or without a name, it is none.
pub proof fn law_a_numbered_device_is_in_brackets(tag: Seq<char>, number: Seq<char>, name: Seq<char>)
    requires
        !number.contains('[') && !number.contains(']'),
        !name.contains('['),
    ensures
        ({
            let line = tag + seq!['['] + number + seq![']'] + name;
            let index = unsigned_value(number, usize::MAX as nat);
            let listed = index is Some && trim_spec(name).len() > 0;
            &&& listed ==> avfoundation_device(line) == Some(
                DeviceView { index: index->0 as usize, name: trim_spec(name), alt_name: None },
            )
            &&& !listed ==> avfoundation_device(line) is None
        }),
        avfoundation_device(name) is None,
        avfoundation_device(tag + seq!['['] + number) is None,
{
    law_the_last_of_a_character(name, '[');
    if last_index_spec(name, '[') is Some {
        assert(name.contains('['));
    }
    lemma_unclosed_device(tag, number);
    let line = tag + seq!['['] + number + seq![']'] + name;
    law_the_last_of_a_character(line, '[');
    assert(line[tag.len() as int] == '[');
    let open = last_index_spec(line, '[')->0;
    if open > tag.len() {
        let k = open - tag.len() - 1;
        if k < number.len() {
            assert(number[k] == line[open]);
            assert(number.contains('['));
        } else {
            assert(k > number.len());
            assert(name[k - number.len() - 1] == line[open]);
            assert(name.contains('['));
        }
    }
    if open < tag.len() {
        assert(line[tag.len() as int] != '[');
    }
    let rest = line.skip(open);
    assert(rest =~= seq!['['] + number + seq![']'] + name);
    law_the_first_of_a_character(rest, ']');
    let at = number.len() + 1;
    assert(rest[at as int] == ']');
    let close = index_spec(rest, ']')->0;
    if 0 < close < at {
        assert(number[close - 1] == rest[close]);
        assert(number.contains(']'));
    }
    if close > at {
        assert(rest[at as int] != ']');
    }
    assert(close == at);
    assert(rest.skip(close + 1) =~= name);
    assert(rest.subrange(1, close) =~= number);
}

/// Only what is listed between the heading of the video devices and that of the
/// audio devices counts, line by line.
pub proof fn law_only_video_devices_count(listing: Seq<Seq<char>>, s: Section, line: Seq<char>)
    ensures
        ({
            let video = find_spec(line, "AVFoundation video devices:"@) is Some;
            let audio = find_spec(line, "AVFoundation audio devices:"@) is Some;
            let n = s.read(line);
            &&& n.over <==> s.over || (!video && audio)
            &&& n.video <==> s.video || (!s.over && video)
            &&& s.over || video || audio || !s.video || avfoundation_device(line) is None ==> n.devices == s.devices
            &&& !s.over && !video && !audio && s.video ==> (avfoundation_device(line) matches Some(d) ==> n.devices
                == s.devices.push(d))
        }),
        avfoundation_found(Seq::empty()) == (Section { devices: Seq::empty(), video: false, over: false }),
        avfoundation_found(listing.push(line)) == avfoundation_found(listing).read(line),
{
    assert(listing.push(line).drop_last() =~= listing);
}

/// A device node is a camera if it is called `video` and a number, and its file
/// is there. It goes by its label, or else by its number, and is opened by its
/// file.
pub proof fn law_a_video_node_is_a_camera(node: VideoNode, digits: Seq<char>, place: nat)
    ensures
        after_prefix(node.entry@, "video"@) is None ==> v4l2_device(node, place) is None,
        !node.present ==> v4l2_device(node, place) is None,
        node.entry@ == "video"@ + digits && unsigned_value(digits, usize::MAX as nat) is None ==> v4l2_device(
            node,
            place,
        ) is None,
        node.entry@ == "video"@ + digits && node.present ==> (unsigned_value(digits, usize::MAX as nat) matches Some(
            number,
        ) ==> v4l2_device(node, place) == Some(
            DeviceView {
                index: place as usize,
                name: if node.label is Some {
                    trim_spec(node.label->0@)
                } else {
                    "Camera "@ + decimal(number)
                },
                alt_name: Some("/dev/"@ + node.entry@),
            },
        )),
{
    crate::text::law_a_prefix_is_taken_off(node.entry@, "video"@, digits);
}

/// Cameras are numbered in the order of their nodes, without gaps: each takes
/// the next place, and a node that is none takes no place.
pub proof fn law_cameras_are_numbered_without_gaps(nodes: Seq<VideoNode>, order: Seq<int>, n: nat, files: Seq<bool>)
    requires
        0 < n,
    ensures
        v4l2_devices(nodes, order, 0) == Seq::<DeviceView>::empty(),
        ({
            let before = v4l2_devices(nodes, order, (n - 1) as nat);
            let d = v4l2_device(nodes[order[n - 1]], before.len());
            &&& d is Some ==> v4l2_devices(nodes, order, n) == before.push(d->0)
            &&& d is None ==> v4l2_devices(nodes, order, n) == before
        }),
        numbered_devices(files, 0) == Seq::<DeviceView>::empty(),
        ({
            let before = numbered_devices(files, (n - 1) as nat);
            &&& files[n - 1] ==> numbered_devices(files, n) == before.push(
                DeviceView {
                    index: before.len() as usize,
                    name: "Video Device "@ + decimal((n - 1) as nat),
                    alt_name: Some("/dev/video"@ + decimal((n - 1) as nat)),
                },
            )
            &&& !files[n - 1] ==> numbered_devices(files, n) == before
        }),
        looked_at(n) <= n && looked_at(n) <= 16,
        looked_at(n) == n || looked_at(n) == 16,
{
}

/// What a platform prints is read as that platform prints it.
pub proof fn law_a_listing_is_read_by_its_platform(printed: String, devices: Seq<DeviceView>)
    ensures
        (Listing::Windows { printed }).names(devices) <==> devices == dshow_found(lines_spec(printed@)).devices,
        (Listing::MacOs { printed }).names(devices) <==> devices == avfoundation_found(lines_spec(printed@)).devices,
{
}

/// The numbered files are looked at only where no node is a camera.
pub proof fn law_nodes_go_before_files(nodes: Vec<VideoNode>, files: Vec<bool>, devices: Seq<DeviceView>)
    requires
        (Listing::Linux { nodes, files }).names(devices),
    ensures
        exists|order: Seq<int>|
            #[trigger] sorts(entries_of(nodes@), order) && ({
                let found = v4l2_devices(nodes@, order, nodes@.len());
                &&& found.len() > 0 ==> devices == found
                &&& found.len() == 0 ==> devices == numbered_devices(files@, looked_at(files@.len()))
            }),
{
}

/// A device is chosen by its index: the first that has it, and none if no device
/// has.
pub proof fn law_a_device_is_chosen_by_its_index(devices: Seq<DeviceView>, index: u32, i: int)
    requires
        0 <= i <= devices.len(),
        forall|j: int| 0 <= j < i ==> (#[trigger] devices[j]).index != index,
    ensures
        i == devices.len() ==> device_at(devices, index) is None,
        i < devices.len() && devices[i].index == index ==> device_at(devices, index) == Some(devices[i]),
    decreases i,
{
    if i > 0 {
        let rest = devices.skip(1);
        assert(devices[0].index != index);
        assert forall|j: int| 0 <= j < i - 1 implies (#[trigger] rest[j]).index != index by {
            assert(rest[j] == devices[j + 1]);
        }
        law_a_device_is_chosen_by_its_index(rest, index, i - 1);
        if i < devices.len() {
            assert(rest[i - 1] == devices[i]);
        }
    }
}

/// Devices are listed one to a line, each by what it is chosen by and its name.
pub proof fn law_devices_are_listed_one_to_a_line(devices: Seq<DeviceView>, d: DeviceView)
    ensures
        ({
            let line = "  camera:"@ + decimal(d.index as nat) + "  "@ + d.name;
            &&& devices_listed(seq![d]) == line
            &&& devices.len() > 0 ==> devices_listed(devices.push(d)) == devices_listed(devices) + "\n"@ + line
        }),
        devices_listed(Seq::empty()) == Seq::<char>::empty(),
        camera_name_spec(d) == "camera:"@ + decimal(d.index as nat) + " ("@ + d.name + ")"@,
        d.alt_name matches Some(alt) ==> d.selected() == alt,
        d.alt_name is None ==> d.selected() == d.name,
{
    assert(devices.push(d).drop_last() =~= devices);
}

/// A device is read at the size and the rate that are configured, through the
/// platform's own interface and opened by what the platform knows it by. A
/// compressed stream is asked for where it is preferred, and where the platform
/// can be asked.
pub proof fn law_a_device_is_read_as_configured(platform: Platform, cfg: CaptureConfig, d: DeviceView)
    ensures
        ({
            let args = capture_args_spec(platform, cfg, d);
            let n = args.len();
            let size = decimal(cfg.width as nat) + "x"@ + decimal(cfg.height as nat);
            let fps = decimal(cfg.fps as nat);
            &&& n >= 11 && args[0] == "-v"@ && args[1] == "error"@ && args[2] == "-nostdin"@ && args[3] == "-f"@
            &&& args[n - 2] == "-i"@
            &&& platform is Windows ==> {
                &&& args[4] == "dshow"@ && args[5] == "-rtbufsize"@ && args[6] == "128M"@
                &&& n == (if cfg.prefer_mjpeg { 15int } else { 13int })
                &&& cfg.prefer_mjpeg ==> args[7] == "-vcodec"@ && args[8] == "mjpeg"@
                &&& args[n - 6] == "-video_size"@ && args[n - 5] == size && args[n - 4] == "-framerate"@
                    && args[n - 3] == fps
                &&& d.alt_name matches Some(alt) ==> args[n - 1] == "video="@ + alt
                &&& d.alt_name is None ==> args[n - 1] == "video="@ + d.name
            }
            &&& platform is MacOs ==> {
                &&& n == 11 && args[4] == "avfoundation"@
                &&& args[5] == "-framerate"@ && args[6] == fps && args[7] == "-video_size"@ && args[8] == size
                &&& args[10] == decimal(d.index as nat) + ":none"@
            }
            &&& platform is Linux ==> {
                &&& args[4] == "v4l2"@ && n == (if cfg.prefer_mjpeg { 13int } else { 11int })
                &&& cfg.prefer_mjpeg ==> args[5] == "-input_format"@ && args[6] == "mjpeg"@
                &&& args[n - 6] == "-video_size"@ && args[n - 5] == size && args[n - 4] == "-framerate"@
                    && args[n - 3] == fps
                &&& d.alt_name matches Some(alt) ==> args[n - 1] == alt
                &&& d.alt_name is None ==> args[n - 1] == "/dev/video"@ + decimal(d.index as nat)
            }
        }),
{
}

/// What is said where no device was found depends on the platform.
pub proof fn law_finding_nothing_says_what_to_check(listing: Listing)
    ensures
        listing is Windows ==> listing.nothing_found()
            == "no video capture devices found. Check that the camera is not in use by another app, and that Windows camera privacy settings allow desktop apps"@,
        listing is MacOs ==> listing.nothing_found()
            == "no video capture devices found. Check camera permissions in macOS System Settings"@,
        listing is Linux ==> listing.nothing_found()
            == "no video capture devices found in /dev/video*. Check that camera is plugged in and accessible"@,
{
}

/// A camera that cannot be opened is complained of with what went wrong first,
/// and with the mode that was asked for.
pub proof fn law_a_camera_that_fails_says_what_was_asked(why: Seq<char>, cfg: CaptureConfig) -> (parts: (
    Seq<char>,
    Seq<char>,
))
    ensures
        open_failure_spec(why, cfg).len() >= why.len(),
        open_failure_spec(why, cfg).take(why.len() as int) == why,
        open_failure_spec(why, cfg) == parts.0 + (if cfg.prefer_mjpeg {
            "mjpeg "@
        } else {
            "raw "@
        }) + (decimal(cfg.width as nat) + "x"@ + decimal(cfg.height as nat)) + " @ "@ + decimal(cfg.fps as nat)
            + parts.1,
{
    let text = open_failure_spec(why, cfg);
    let a = why
        + "\n\nThree things cause this, in order of likelihood:\n1. Another app is holding the camera — OBS, Teams, Zoom, Discord, or a browser tab. Windows lets exactly one process own a webcam. Close it and retry.\n2. The requested mode is not offered. You asked for "@;
    let b =
        " fps; run `detect-cli devices --formats` and pick a listed combination.\n3. Camera access is off for desktop apps in Windows privacy settings."@;
    assert(text =~= a + (if cfg.prefer_mjpeg {
        "mjpeg "@
    } else {
        "raw "@
    }) + (decimal(cfg.width as nat) + "x"@ + decimal(cfg.height as nat)) + " @ "@ + decimal(cfg.fps as nat) + b);
    assert(text.take(why.len() as int) =~= why);
    (a, b)
}

/// Lists of devices and of modes say what each of them says, in order.
pub proof fn law_devices_and_modes_are_listed_as_they_are(
    devices: Seq<CameraDevice>,
    formats: Seq<CameraFormat>,
    i: int,
)
    ensures
        devices_view(devices).len() == devices.len(),
        0 <= i < devices.len() ==> {
            let (v, d) = (devices_view(devices)[i], devices[i]);
            &&& v.index == d.index && v.name == d.name@
            &&& d.alt_name matches Some(alt) ==> v.alt_name == Some(alt@)
            &&& d.alt_name is None ==> v.alt_name is None
        },
        formats_view(formats).len() == formats.len(),
        0 <= i < formats.len() ==> {
            let (v, f) = (formats_view(formats)[i], formats[i]);
            &&& v.codec == f.codec@ && v.width == f.width && v.height == f.height
            &&& f.fps matches Some(fps) ==> v.fps == Some(fps@)
            &&& f.fps is None ==> v.fps is None
        },
{
}

} // verus!
