//! The filesystem-listing extractor.
//!
//! The listing comes in two shapes, depending on the remote tool: a device
//! path too long for its column wraps onto a line of its own, followed by a
//! line with one token fewer than usual; or device and columns share one
//! line. A one-bit continuation flag carried across lines reconciles the two
//! shapes. The scan keeps only the most recent successfully parsed line:
//! downstream consumers expect a single-entry report, so the whole list is
//! replaced rather than accumulated.

use vstd::prelude::*;

use crate::text::is_prefix;
use crate::text::parse_u64;
use crate::text::spec_lines;
use crate::text::spec_parse_u64;
use crate::text::split_ws;
use crate::text::starts_with;
use crate::text::str_lines;
use crate::text::ws_tokens;

verus! {

/// One mounted filesystem: its mount point, used bytes and free bytes.
#[derive(Clone, Debug)]
pub struct FileSystemInfo {
    pub mount_point: String,
    pub used: u64,
    pub free: u64,
}

/// The mathematical image of one filesystem record.
pub struct FsView {
    pub mount_point: Seq<char>,
    pub used: u64,
    pub free: u64,
}

impl View for FileSystemInfo {
    type V = FsView;

    open spec fn view(&self) -> FsView {
        FsView { mount_point: self.mount_point@, used: self.used, free: self.free }
    }
}

impl DeepView for FileSystemInfo {
    type V = FsView;

    open spec fn deep_view(&self) -> FsView {
        self.view()
    }
}

/// One tokenized line applied to the scanner state (continuation flag, last
/// parsed record): a lone device-path token arms the flag; a line with the
/// expected column count (five after a wrapped device line, six with the
/// device inline) is read at the offset the flag dictates, both counts
/// disarming the flag; anything else leaves the state alone.
pub open spec fn fs_step(st: (bool, Option<FsView>), t: Seq<Seq<char>>) -> (bool, Option<
    FsView,
>) {
    let dev = t.len() > 0 && is_prefix("/dev/"@, t[0]);
    if t.len() == 1 && dev {
        (true, st.1)
    } else if (t.len() == 5 && st.0) || (t.len() == 6 && dev) {
        let off: int = if st.0 {
            1
        } else {
            0
        };
        if spec_parse_u64(t[2 - off]) is Some && spec_parse_u64(t[3 - off]) is Some {
            (
                false,
                Some(
                    FsView {
                        mount_point: t[5 - off],
                        used: spec_parse_u64(t[2 - off]).unwrap(),
                        free: spec_parse_u64(t[3 - off]).unwrap(),
                    },
                ),
            )
        } else {
            (false, st.1)
        }
    } else {
        st
    }
}

/// The listing lines from `i` on, applied to the scanner state in order.
pub open spec fn fs_scan(st: (bool, Option<FsView>), ls: Seq<Seq<char>>, i: int) -> (bool, Option<
    FsView,
>)
    decreases ls.len() - i,
{
    if i < 0 || i >= ls.len() {
        st
    } else {
        fs_scan(fs_step(st, split_ws(ls[i])), ls, i + 1)
    }
}

/// Scans a whole filesystem listing and yields the last successfully parsed
/// record, if any line parsed.
pub fn extract_fs(text: &str) -> (r: Option<FileSystemInfo>)
    ensures
        r.deep_view() == fs_scan((false, Option::<FsView>::None), spec_lines(text@), 0).1,
{
    let ghost ls = spec_lines(text@);
    let lines = str_lines(text);
    let mut flag = false;
    let mut last: Option<FileSystemInfo> = None;
    let mut li: usize = 0;
    while li < lines.len()
        invariant
            lines.deep_view() == ls,
            li <= lines@.len(),
            fs_scan((flag, last.deep_view()), ls, li as int) == fs_scan(
                (false, Option::<FsView>::None),
                ls,
                0,
            ),
        decreases lines@.len() - li,
    {
        let line = lines[li];
        proof {
            assert(ls[li as int] == line@);
        }
        let toks = ws_tokens(line);
        let ghost t = split_ws(line@);
        proof {
            assert(toks.deep_view() == t);
        }
        let dev = toks.len() > 0 && starts_with(toks[0], "/dev/");
        proof {
            if toks@.len() > 0 {
                assert(t[0] == toks@[0]@);
            }
        }
        if toks.len() == 1 && dev {
            flag = true;
        } else if (toks.len() == 5 && flag) || (toks.len() == 6 && dev) {
            let off: usize = if flag {
                1
            } else {
                0
            };
            flag = false;
            proof {
                assert(t[2 - off as int] == toks@[2 - off as int]@);
                assert(t[3 - off as int] == toks@[3 - off as int]@);
                assert(t[5 - off as int] == toks@[5 - off as int]@);
            }
            let used = parse_u64(toks[2 - off]);
            let free = parse_u64(toks[3 - off]);
            match (used, free) {
                (Some(u), Some(fr)) => {
                    last = Some(
                        FileSystemInfo {
                            mount_point: String::from_str(toks[5 - off]),
                            used: u,
                            free: fr,
                        },
                    );
                },
                _ => {},
            }
        }
        li = li + 1;
    }
    last
}

} // verus!
