use vstd::prelude::*;

use crate::cache::{kind_label, CacheEntry, CacheKind, DecodedImage};
use crate::text::{decimal, decimal_text, right_align, right_aligned};

verus! {

/// The arguments of the `gui` command: the directory to scan, where it is
/// not the platform's default Discord cache directory.
#[derive(Clone, Debug, PartialEq, Eq)]
pub struct GuiArgs {
    pub cache_dir: Option<String>,
}

/// The arguments of the `list` command: the directory to scan and how many
/// files to print at most.
#[derive(Clone, Debug, PartialEq, Eq)]
pub struct ListArgs {
    pub cache_dir: Option<String>,
    pub limit: usize,
}

/// The arguments of the `inspect` command: the cache file to inspect.
#[derive(Clone, Debug, PartialEq, Eq)]
pub struct InspectArgs {
    pub path: String,
}

/// The arguments of the `thumbnail` command: the video cache file to
/// decode and, optionally, where to write the PNG.
#[derive(Clone, Debug, PartialEq, Eq)]
pub struct ThumbnailArgs {
    pub input: String,
    pub output: Option<String>,
}

/// The commands of the program.
#[derive(Clone, Debug, PartialEq, Eq)]
pub enum Command {
    /// Launch the graphical cache explorer.
    Gui(GuiArgs),
    /// List cache files and detected media kinds.
    List(ListArgs),
    /// Inspect one cache file.
    Inspect(InspectArgs),
    /// Extract a PNG thumbnail from a video cache file.
    Thumbnail(ThumbnailArgs),
}

impl Default for GuiArgs {
    fn default() -> (args: Self)
        ensures
            args.cache_dir is None,
    {
        GuiArgs { cache_dir: None }
    }
}

impl Default for Command {
    /// With no command given, the program opens the explorer on the default directory.
    fn default() -> (command: Self)
        ensures
            command matches Command::Gui(args) && args.cache_dir is None,
    {
        Command::Gui(GuiArgs::default())
    }
}

/// One line of the `list` output: the position right-aligned in four
/// columns, the kind's label in five, the size in ten, then the name.
pub open spec fn listing_line(index: nat, entry: CacheEntry) -> Seq<char> {
    right_aligned(decimal(index), 4) + " "@ + right_aligned(kind_label(entry.kind), 5) + " "@
        + right_aligned(decimal(entry.len as nat), 10) + " "@ + entry.file_name@
}

/// How many files the `list` output shows.
pub open spec fn shown_count(limit: nat, count: nat) -> nat {
    if limit < count {
        limit
    } else {
        count
    }
}

impl ListArgs {
    /// The lines that `list` prints for `entries` found in `cache_dir`: the
    /// directory, the number of files, then one line for each of the first
    /// `limit` files.
    pub fn listing(&self, cache_dir: &str, entries: &Vec<CacheEntry>) -> (lines: Vec<String>)
        ensures
            lines.len() == 2 + shown_count(self.limit as nat, entries.len() as nat),
            lines@[0]@ == "cache_dir="@ + cache_dir@,
            lines@[1]@ == "files="@ + decimal(entries.len() as nat),
            forall|i: int|
                0 <= i < shown_count(self.limit as nat, entries.len() as nat) ==> #[trigger] lines@[2
                    + i]@ == listing_line(i as nat, entries@[i]),
    {
        let mut lines: Vec<String> = Vec::new();
        let mut first = String::from_str("cache_dir=");
        first.append(cache_dir);
        lines.push(first);
        let mut second = String::from_str("files=");
        let count = decimal_text(entries.len() as u64);
        second.append(count.as_str());
        lines.push(second);
        let shown = if self.limit < entries.len() {
            self.limit
        } else {
            entries.len()
        };
        let mut i: usize = 0;
        while i < shown
            invariant
                shown == shown_count(self.limit as nat, entries.len() as nat),
                shown <= entries.len(),
                i <= shown,
                lines.len() == 2 + i,
                lines@[0]@ == "cache_dir="@ + cache_dir@,
                lines@[1]@ == "files="@ + decimal(entries.len() as nat),
                forall|j: int| 0 <= j < i ==> #[trigger] lines@[2 + j]@ == listing_line(j as nat, entries@[j]),
            decreases shown - i,
        {
            let entry = &entries[i];
            let number = decimal_text(i as u64);
            let mut line = right_align(number.as_str(), 4);
            line.append(" ");
            let label = right_align(entry.kind.label(), 5);
            line.append(label.as_str());
            line.append(" ");
            let size = decimal_text(entry.len);
            let size = right_align(size.as_str(), 10);
            line.append(size.as_str());
            line.append(" ");
            line.append(entry.file_name.as_str());
            lines.push(line);
            i = i + 1;
        }
        lines
    }
}

/// What inspecting a file found beyond its size and kind: an image's
/// decoded size or why it did not decode, what `ffprobe` said of a video
/// or why it failed, or nothing for other files.
#[derive(Clone, Debug, PartialEq, Eq)]
pub enum Finding {
    Decoded { width: u32, height: u32 },
    DecodeFailed(String),
    Probed(String),
    ProbeFailed(String),
    Nothing,
}

/// What `inspect` does with a file beyond reporting its size and kind:
/// decode an image, probe a video, nothing for other files.
#[derive(Clone, Copy, Debug, PartialEq, Eq, Structural)]
pub enum InspectStep {
    DecodeImage,
    ProbeVideo,
    Nothing,
}

/// The step that `inspect` takes for a file of `kind`.
pub fn inspect_step(kind: CacheKind) -> (step: InspectStep)
    ensures
        step == match kind {
            CacheKind::Image => InspectStep::DecodeImage,
            CacheKind::Video => InspectStep::ProbeVideo,
            CacheKind::Other => InspectStep::Nothing,
        },
{
    match kind {
        CacheKind::Image => InspectStep::DecodeImage,
        CacheKind::Video => InspectStep::ProbeVideo,
        CacheKind::Other => InspectStep::Nothing,
    }
}

/// The finding of decoding an image: its size, or the decoder's message,
/// which `inspect` prints rather than fails on.
pub fn decode_finding(decoded: Result<DecodedImage, String>) -> (finding: Finding)
    ensures
        finding == match decoded {
            Ok(image) => Finding::Decoded { width: image.width, height: image.height },
            Err(message) => Finding::DecodeFailed(message),
        },
{
    match decoded {
        Ok(image) => Finding::Decoded { width: image.width, height: image.height },
        Err(message) => Finding::DecodeFailed(message),
    }
}

/// The finding of probing a video: what `ffprobe` printed, or why it
/// failed, which `inspect` prints rather than fails on.
pub fn probe_finding(probed: Result<String, String>) -> (finding: Finding)
    ensures
        finding == match probed {
            Ok(output) => Finding::Probed(output),
            Err(message) => Finding::ProbeFailed(message),
        },
{
    match probed {
        Ok(output) => Finding::Probed(output),
        Err(message) => Finding::ProbeFailed(message),
    }
}

/// The text that `inspect` prints: one `key=value` line each for the
/// path, size and kind, then the finding; the `ffprobe` output is printed as it came.
pub open spec fn inspect_text(path: Seq<char>, size: nat, kind: CacheKind, finding: Finding) -> Seq<char> {
    "path="@ + path + "\n"@ + "size="@ + decimal(size) + "\n"@ + "kind="@ + kind_label(kind) + "\n"@
        + match finding {
        Finding::Decoded { width, height } => "image_decode=ok\n"@ + "image_width="@ + decimal(
            width as nat,
        ) + "\n"@ + "image_height="@ + decimal(height as nat) + "\n"@,
        Finding::DecodeFailed(message) => "image_decode=error\n"@ + "image_error="@ + message@
            + "\n"@,
        Finding::Probed(output) => "ffprobe=ok\n"@ + output@,
        Finding::ProbeFailed(message) => "ffprobe=error\n"@ + "ffprobe_error="@ + message@ + "\n"@,
        Finding::Nothing => Seq::empty(),
    }
}

/// The report of the `inspect` command.
pub fn inspect_report(path: &str, size: u64, kind: CacheKind, finding: &Finding) -> (text: String)
    ensures
        text@ == inspect_text(path@, size as nat, kind, *finding),
{
    let mut text = String::from_str("path=");
    text.append(path);
    text.append("\n");
    text.append("size=");
    let digits = decimal_text(size);
    text.append(digits.as_str());
    text.append("\n");
    text.append("kind=");
    text.append(kind.label());
    text.append("\n");
    let ghost head = text@;
    match finding {
        Finding::Decoded { width, height } => {
            text.append("image_decode=ok\n");
            text.append("image_width=");
            let w = decimal_text(*width as u64);
            text.append(w.as_str());
            text.append("\n");
            text.append("image_height=");
            let h = decimal_text(*height as u64);
            text.append(h.as_str());
            text.append("\n");
        },
        Finding::DecodeFailed(message) => {
            text.append("image_decode=error\n");
            text.append("image_error=");
            text.append(message.as_str());
            text.append("\n");
        },
        Finding::Probed(output) => {
            text.append("ffprobe=ok\n");
            text.append(output.as_str());
        },
        Finding::ProbeFailed(message) => {
            text.append("ffprobe=error\n");
            text.append("ffprobe_error=");
            text.append(message.as_str());
            text.append("\n");
        },
        Finding::Nothing => {},
    }
    proof {
        assert(text@ =~= inspect_text(path@, size as nat, kind, *finding));
    }
    text
}

} // verus!
