//! Blocklist synchroniser: keeps one fenced block of redirect lines inside the
//! text of a hosts file.
//!
//! The functions here compute on the text alone; reading and writing the file
//! is the caller's part. A text is modelled as its sequence of characters, and
//! every position counts characters.

use crate::text::{chars_of, find, first_occurrence, lemma_first_occurrence, trim_end, trim_end_index};
use vstd::prelude::*;
use vstd::string::*;

verus! {

/// First line of the fenced block.
pub const BASTION_MARKER_START: &'static str = "# === BASTION BLOCK START ===";

/// Last line of the fenced block.
pub const BASTION_MARKER_END: &'static str = "# === BASTION BLOCK END ===";

/// The operating systems whose hosts file the synchroniser knows.
#[derive(Clone, Copy, Debug, PartialEq, Eq, Structural)]
pub enum Platform {
    Windows,
    MacOs,
    Linux,
}

/// Where the hosts file lives on `platform`.
pub open spec fn hosts_path(platform: Platform) -> Seq<char> {
    match platform {
        Platform::Windows => "C:\\Windows\\System32\\drivers\\etc\\hosts"@,
        Platform::MacOs => "/etc/hosts"@,
        Platform::Linux => "/etc/hosts"@,
    }
}

/// The start marker as characters.
pub open spec fn marker_start() -> Seq<char> {
    "# === BASTION BLOCK START ==="@
}

/// The end marker as characters.
pub open spec fn marker_end() -> Seq<char> {
    "# === BASTION BLOCK END ==="@
}

/// The marked section of `contents`: from the first start marker to the end of
/// the first end marker that follows it. `None` where either is missing.
pub open spec fn section_bounds(contents: Seq<char>) -> Option<(int, int)> {
    match first_occurrence(contents, marker_start(), 0) {
        Some(s) => match first_occurrence(contents, marker_end(), s + marker_start().len()) {
            Some(e) => Some((s, e + marker_end().len())),
            None => None,
        },
        None => None,
    }
}

/// The fenced region of `contents`: its marked section together with the two
/// newlines that separate it from what stands before, and the newline that ends
/// its last line, as far as they are there.
pub open spec fn fence_bounds(contents: Seq<char>) -> Option<(int, int)> {
    match section_bounds(contents) {
        Some((s, e)) => Some(
            (
                if s >= 2 && contents[s - 2] == '\n' && contents[s - 1] == '\n' {
                    s - 2
                } else {
                    s
                },
                if e < contents.len() && contents[e] == '\n' {
                    e + 1
                } else {
                    e
                },
            ),
        ),
        None => None,
    }
}

/// What stands between `head` and `tail` once a fence between them is cut out:
/// a newline where `head` ends within a line and `tail` goes on, so that the
/// last line before the fence and the first after it stay two lines; else
/// nothing.
pub open spec fn joint(head: Seq<char>, tail: Seq<char>) -> Seq<char> {
    if head.len() > 0 && head.last() != '\n' && tail.len() > 0 {
        "\n"@
    } else {
        Seq::empty()
    }
}

/// `contents` with its fenced region cut out. What stands before the region
/// and what stands after it are kept as they are, with a newline between them
/// where they would else run into one line.
pub open spec fn without_fence(contents: Seq<char>) -> Seq<char> {
    match fence_bounds(contents) {
        Some((a, b)) => contents.subrange(0, a) + joint(
            contents.subrange(0, a),
            contents.subrange(b, contents.len() as int),
        ) + contents.subrange(b, contents.len() as int),
        None => contents,
    }
}

/// One redirect line: an address with what follows it up to the name, the
/// name, and a newline.
pub open spec fn line(prefix: Seq<char>, domain: Seq<char>) -> Seq<char> {
    prefix + domain + "\n"@
}

/// The four redirect lines of one domain: IPv4 bare, IPv4 `www.`, IPv6 bare,
/// IPv6 `www.`.
pub open spec fn entry(domain: Seq<char>) -> Seq<char> {
    line("127.0.0.1 "@, domain) + line("127.0.0.1 www."@, domain) + line("::1 "@, domain) + line(
        "::1 www."@,
        domain,
    )
}

/// The redirect lines of `domains`, in their order.
pub open spec fn entries(domains: Seq<Seq<char>>) -> Seq<char>
    decreases domains.len(),
{
    if domains.len() == 0 {
        Seq::empty()
    } else {
        entries(domains.drop_last()) + entry(domains.last())
    }
}

/// The marked section for `domains`: start marker line, redirect lines, end
/// marker.
pub open spec fn block(domains: Seq<Seq<char>>) -> Seq<char> {
    marker_start() + "\n"@ + entries(domains) + marker_end()
}

/// The hosts text after a synchronisation with `domains`: the old fenced region
/// is cut out and, where there are domains, a new one is appended.
pub open spec fn synced(contents: Seq<char>, domains: Seq<Seq<char>>) -> Seq<char> {
    if domains.len() == 0 {
        without_fence(contents)
    } else {
        without_fence(contents) + "\n\n"@ + block(domains) + "\n"@
    }
}

/// The hosts text after clearing: the marked section is cut out and the
/// whitespace that ended the text before it is dropped.
pub open spec fn cleared(contents: Seq<char>) -> Option<Seq<char>> {
    match section_bounds(contents) {
        Some((s, e)) => Some(
            trim_end(contents.subrange(0, s)) + contents.subrange(e, contents.len() as int),
        ),
        None => None,
    }
}

/// Path of the hosts file on `platform`.
pub fn get_hosts_path(platform: Platform) -> (path: &'static str)
    ensures
        path@ == hosts_path(platform),
{
    match platform {
        Platform::Windows => "C:\\Windows\\System32\\drivers\\etc\\hosts",
        Platform::MacOs => "/etc/hosts",
        Platform::Linux => "/etc/hosts",
    }
}

fn section_in(chars: &[char]) -> (r: Option<(usize, usize)>)
    ensures
        match r {
            Some((s, e)) => section_bounds(chars@) == Some((s as int, e as int)) && s <= e
                <= chars@.len(),
            None => section_bounds(chars@) is None,
        },
{
    let n = chars.len();
    let start_marker = chars_of(BASTION_MARKER_START);
    let end_marker = chars_of(BASTION_MARKER_END);
    match find(chars, start_marker.as_slice(), 0) {
        None => None,
        Some(s) => {
            proof {
                lemma_first_occurrence(chars@, start_marker@, 0);
            }
            assert(s + start_marker@.len() <= n);
            match find(chars, end_marker.as_slice(), s + start_marker.len()) {
                None => None,
                Some(e) => {
                    proof {
                        lemma_first_occurrence(chars@, end_marker@, s + start_marker@.len());
                    }
                    assert(e + end_marker@.len() <= n);
                    Some((s, e + end_marker.len()))
                },
            }
        },
    }
}

fn fence_in(chars: &[char]) -> (r: Option<(usize, usize)>)
    ensures
        match r {
            Some((a, b)) => fence_bounds(chars@) == Some((a as int, b as int)) && a <= b
                <= chars@.len(),
            None => fence_bounds(chars@) is None,
        },
{
    match section_in(chars) {
        None => None,
        Some((s, e)) => {
            let a = if s >= 2 && chars[s - 2] == '\n' && chars[s - 1] == '\n' {
                s - 2
            } else {
                s
            };
            let b = if e < chars.len() && chars[e] == '\n' {
                e + 1
            } else {
                e
            };
            Some((a, b))
        },
    }
}

/// The marked section of `contents` with the positions where it starts and ends.
pub fn get_bastion_section<'a>(contents: &'a str) -> (r: Option<(&'a str, usize, usize)>)
    ensures
        match r {
            Some((section, s, e)) => {
                &&& section_bounds(contents@) == Some((s as int, e as int))
                &&& section@ == contents@.subrange(s as int, e as int)
            },
            None => section_bounds(contents@) is None,
        },
{
    let chars = chars_of(contents);
    match section_in(chars.as_slice()) {
        None => None,
        Some((s, e)) => Some((contents.substring_char(s, e), s, e)),
    }
}

/// The marked section that blocks `domains`.
pub fn generate_block_entries(domains: &[String]) -> (r: String)
    ensures
        r@ == block(domains.deep_view()),
{
    let mut out = String::new();
    out.append(BASTION_MARKER_START);
    out.append("\n");
    let ghost names = domains.deep_view();
    let mut i: usize = 0;
    while i < domains.len()
        invariant
            i <= domains@.len(),
            names == domains.deep_view(),
            out@ == marker_start() + "\n"@ + entries(names.subrange(0, i as int)),
        decreases domains@.len() - i,
    {
        let ghost before = out@;
        let domain = domains[i].as_str();
        out.append("127.0.0.1 ");
        out.append(domain);
        out.append("\n");
        out.append("127.0.0.1 www.");
        out.append(domain);
        out.append("\n");
        out.append("::1 ");
        out.append(domain);
        out.append("\n");
        out.append("::1 www.");
        out.append(domain);
        out.append("\n");
        proof {
            let next = names.subrange(0, i + 1);
            assert(next.drop_last() =~= names.subrange(0, i as int));
            assert(next.last() == domain@);
            assert(out@ =~= before + entry(domain@));
            assert(out@ =~= marker_start() + "\n"@ + entries(next));
        }
        i += 1;
    }
    assert(names.subrange(0, i as int) =~= names);
    out.append(BASTION_MARKER_END);
    out
}

/// The hosts text that blocks exactly `domains`: the fenced region of `contents`
/// is cut out, what stood before and after it kept apart, and, where `domains`
/// is not empty, a new one is appended.
pub fn update_blocked_websites(contents: &str, domains: &[String]) -> (r: String)
    ensures
        r@ == synced(contents@, domains.deep_view()),
{
    let chars = chars_of(contents);
    let mut out = String::new();
    match fence_in(chars.as_slice()) {
        None => {
            out.append(contents);
        },
        Some((a, b)) => {
            out.append(contents.substring_char(0, a));
            if a > 0 && chars[a - 1] != '\n' && b < chars.len() {
                out.append("\n");
            }
            out.append(contents.substring_char(b, chars.len()));
        },
    }
    if domains.len() > 0 {
        let section = generate_block_entries(domains);
        out.append("\n\n");
        out.append(section.as_str());
        out.append("\n");
    }
    out
}

/// The hosts text with its marked section removed and the whitespace before it
/// dropped; `None` where `contents` holds no marked section.
pub fn clear_blocked_websites(contents: &str) -> (r: Option<String>)
    ensures
        match r {
            Some(text) => cleared(contents@) == Some(text@),
            None => cleared(contents@) is None,
        },
{
    let chars = chars_of(contents);
    match section_in(chars.as_slice()) {
        None => None,
        Some((s, e)) => {
            let kept = trim_end_index(chars.as_slice(), 0, s);
            let mut out = String::new();
            out.append(contents.substring_char(0, kept));
            out.append(contents.substring_char(e, chars.len()));
            Some(out)
        },
    }
}

} // verus!
