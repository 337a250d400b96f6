//! Link extraction: a single left-to-right scan over one article body that
//! collects the sanitized targets of its bracket links, in order and with
//! duplicates preserved.
//!
//! The scan has mutually exclusive modes. A bracket-link candidate opens on
//! `[[` and closes on `]]`; on close the display alias (after the first
//! `|`) and the intra-page anchor (after the first `#`) are discarded, and
//! the candidate is dropped entirely when it mentions `(disambiguation)`
//! or sanitizes to the empty string. A tag skip opens on `<` and tracks
//! element depth: an opening tag raises it, a closing tag (`</...>`) or a
//! self-closing mark (`/>`) lowers it, and the skip ends when all open
//! elements are closed, so a link nested anywhere inside tags is never
//! scanned. A template skip opens on `{{` and discards everything up to
//! the first `}}`. Candidates whose accumulated prefix exactly matches a
//! non-article namespace are abandoned at once.

use vstd::prelude::*;

use crate::utils::{
    chars_of, contains_chars, contains_seq, cut_at_char, cut_at_char_exec, chars_eq_str,
    sanitize_chars, sanitize_spec, string_from_chars,
};

verus! {

/// The mode of the scanner: ordinary text, inside nested tags, or inside
/// a template block.
#[derive(Clone, Copy, PartialEq, Eq, Structural, Debug)]
pub enum ScanMode {
    Norm,
    Tag,
    Tpl,
}

/// Whether an accumulating candidate is exactly one of the rejected
/// namespace prefixes.
pub open spec fn is_namespace_prefix(c: Seq<char>) -> bool {
    ||| c == "File:"@
    ||| c == "Image:"@
    ||| c == "Wikipedia:"@
    ||| c == "WP:"@
    ||| c == "Template:"@
    ||| c == "MOS:"@
    ||| c == "Help:"@
    ||| c == "Draft:"@
    ||| c == "User:"@
}

/// What a closed bracket-link candidate contributes to the result: the
/// candidate without alias and anchor, sanitized; or nothing, when it
/// mentions `(disambiguation)` or sanitizes to the empty string.
pub open spec fn candidate_links(cd: Seq<char>) -> Seq<Seq<char>> {
    let kept = cut_at_char(cut_at_char(cd, '|'), '#');
    if contains_seq(kept, "(disambiguation)"@) || sanitize_spec(kept).len() == 0 {
        Seq::empty()
    } else {
        seq![sanitize_spec(kept)]
    }
}

/// The targets that the scan emits from position `i` onward, given the
/// current mode, the tag depth, and the accumulated bracket-link
/// candidate, if any.
pub open spec fn scan(
    s: Seq<char>,
    i: int,
    mode: ScanMode,
    depth: nat,
    cand: Option<Seq<char>>,
) -> Seq<Seq<char>>
    decreases s.len() - i,
{
    if i < 0 || i >= s.len() {
        Seq::empty()
    } else {
        let c = s[i];
        match mode {
            ScanMode::Tag => {
                if c == '<' && i + 1 < s.len() && s[i + 1] == '/' {
                    scan(s, i + 2, ScanMode::Tag, if depth > 0 { (depth - 1) as nat } else { 0 }, cand)
                } else if c == '/' && i + 1 < s.len() && s[i + 1] == '>' {
                    if depth <= 1 {
                        scan(s, i + 2, ScanMode::Norm, 0, cand)
                    } else {
                        scan(s, i + 2, ScanMode::Tag, (depth - 1) as nat, cand)
                    }
                } else if c == '<' {
                    scan(s, i + 1, ScanMode::Tag, depth + 1, cand)
                } else if c == '>' && depth == 0 {
                    scan(s, i + 1, ScanMode::Norm, 0, cand)
                } else {
                    scan(s, i + 1, ScanMode::Tag, depth, cand)
                }
            },
            ScanMode::Tpl => {
                if c == '}' && i + 1 < s.len() && s[i + 1] == '}' {
                    scan(s, i + 2, ScanMode::Norm, 0, cand)
                } else {
                    scan(s, i + 1, ScanMode::Tpl, 0, cand)
                }
            },
            ScanMode::Norm => {
                if c == '[' && i + 1 < s.len() && s[i + 1] == '[' {
                    scan(s, i + 2, ScanMode::Norm, 0, Some(Seq::empty()))
                } else if c == ']' && i + 1 < s.len() && s[i + 1] == ']' {
                    match cand {
                        Some(cd) => candidate_links(cd) + scan(s, i + 2, ScanMode::Norm, 0, None),
                        None => scan(s, i + 2, ScanMode::Norm, 0, None),
                    }
                } else if c == '<' {
                    if i + 1 < s.len() && s[i + 1] == '/' {
                        scan(s, i + 2, ScanMode::Tag, 0, cand)
                    } else {
                        scan(s, i + 1, ScanMode::Tag, 1, cand)
                    }
                } else if c == '{' && i + 1 < s.len() && s[i + 1] == '{' {
                    scan(s, i + 2, ScanMode::Tpl, 0, cand)
                } else {
                    match cand {
                        Some(cd) => {
                            if is_namespace_prefix(cd.push(c)) {
                                scan(s, i + 1, ScanMode::Norm, 0, None)
                            } else {
                                scan(s, i + 1, ScanMode::Norm, 0, Some(cd.push(c)))
                            }
                        },
                        None => scan(s, i + 1, ScanMode::Norm, 0, None),
                    }
                }
            },
        }
    }
}

/// The ordered, sanitized link targets of one article body.
pub open spec fn extract_spec(s: Seq<char>) -> Seq<Seq<char>> {
    scan(s, 0, ScanMode::Norm, 0, None)
}

/// Whether the candidate is exactly one of the rejected namespace
/// prefixes.
fn is_namespace(cand: &Vec<char>) -> (r: bool)
    ensures
        r == is_namespace_prefix(cand@),
{
    chars_eq_str(cand, "File:") || chars_eq_str(cand, "Image:") || chars_eq_str(cand, "Wikipedia:")
        || chars_eq_str(cand, "WP:") || chars_eq_str(cand, "Template:") || chars_eq_str(
        cand,
        "MOS:",
    ) || chars_eq_str(cand, "Help:") || chars_eq_str(cand, "Draft:") || chars_eq_str(cand, "User:")
}

/// The ordered, sanitized link targets of one article body.
pub fn extract_links_str(text: &str) -> (links: Vec<String>)
    ensures
        links.deep_view() == extract_spec(text@),
{
    let v = chars_of(text);
    let n = v.len();
    let mut links: Vec<String> = Vec::new();
    let mut mode = ScanMode::Norm;
    let mut depth: usize = 0;
    let mut inside = false;
    let mut cand: Vec<char> = Vec::new();
    let mut i: usize = 0;
    proof {
        assert(links.deep_view() =~= Seq::<Seq<char>>::empty());
        assert(links.deep_view() + scan(v@, 0, ScanMode::Norm, 0, None) =~= extract_spec(v@));
    }
    while i < n
        invariant
            i <= n == v@.len(),
            depth <= i,
            mode != ScanMode::Tag ==> depth == 0,
            v@ == text@,
            extract_spec(text@) == links.deep_view() + scan(
                v@,
                i as int,
                mode,
                depth as nat,
                if inside {
                    Some(cand@)
                } else {
                    None
                },
            ),
        decreases n - i,
    {
        let ghost links0 = links.deep_view();
        let ghost cv0: Option<Seq<char>> = if inside {
            Some(cand@)
        } else {
            None
        };
        let c = v[i];
        match mode {
            ScanMode::Tag => {
                if c == '<' && i + 1 < n && v[i + 1] == '/' {
                    if depth > 0 {
                        depth = depth - 1;
                    }
                    i = i + 2;
                } else if c == '/' && i + 1 < n && v[i + 1] == '>' {
                    if depth <= 1 {
                        mode = ScanMode::Norm;
                        depth = 0;
                    } else {
                        depth = depth - 1;
                    }
                    i = i + 2;
                } else if c == '<' {
                    depth = depth + 1;
                    i = i + 1;
                } else if c == '>' && depth == 0 {
                    mode = ScanMode::Norm;
                    i = i + 1;
                } else {
                    i = i + 1;
                }
            },
            ScanMode::Tpl => {
                if c == '}' && i + 1 < n && v[i + 1] == '}' {
                    mode = ScanMode::Norm;
                    i = i + 2;
                } else {
                    i = i + 1;
                }
            },
            ScanMode::Norm => {
                if c == '[' && i + 1 < n && v[i + 1] == '[' {
                    inside = true;
                    cand = Vec::new();
                    i = i + 2;
                } else if c == ']' && i + 1 < n && v[i + 1] == ']' {
                    if inside {
                        let c1 = cut_at_char_exec(&cand, '|');
                        let kept = cut_at_char_exec(&c1, '#');
                        let pat = chars_of("(disambiguation)");
                        let dis = contains_chars(&kept, &pat);
                        let sani = sanitize_chars(&kept);
                        if !dis && sani.len() > 0 {
                            let s = string_from_chars(&sani);
                            links.push(s);
                            proof {
                                assert(links.deep_view() =~= links0 + candidate_links(
                                    cv0->Some_0,
                                ));
                            }
                        } else {
                            proof {
                                assert(candidate_links(cv0->Some_0) =~= Seq::<Seq<char>>::empty());
                                assert(links.deep_view() =~= links0 + candidate_links(
                                    cv0->Some_0,
                                ));
                            }
                        }
                        proof {
                            let rest = scan(v@, i as int + 2, ScanMode::Norm, 0, None);
                            assert(links0 + (candidate_links(cv0->Some_0) + rest) =~= (links0
                                + candidate_links(cv0->Some_0)) + rest);
                        }
                        inside = false;
                        cand = Vec::new();
                    }
                    i = i + 2;
                } else if c == '<' {
                    if i + 1 < n && v[i + 1] == '/' {
                        mode = ScanMode::Tag;
                        depth = 0;
                        i = i + 2;
                    } else {
                        mode = ScanMode::Tag;
                        depth = 1;
                        i = i + 1;
                    }
                } else if c == '{' && i + 1 < n && v[i + 1] == '{' {
                    mode = ScanMode::Tpl;
                    i = i + 2;
                } else {
                    if inside {
                        cand.push(c);
                        if is_namespace(&cand) {
                            inside = false;
                            cand = Vec::new();
                        }
                    }
                    i = i + 1;
                }
            },
        }
    }
    proof {
        assert(scan(
            v@,
            i as int,
            mode,
            depth as nat,
            if inside {
                Some(cand@)
            } else {
                None
            },
        ) =~= Seq::<Seq<char>>::empty());
        assert(links.deep_view() + Seq::<Seq<char>>::empty() =~= links.deep_view());
    }
    links
}

/// Extracts article-to-article link targets from raw wiki markup.
pub trait LinkHandler {
    /// The ordered, sanitized link targets of the body, per `extract_spec`.
    fn extract_links(&self, input: String) -> (links: Vec<String>)
        ensures
            links.deep_view() == extract_spec(input@),
    ;
}

/// The scanner for wiki markup described at the top of this module.
pub struct WikiLinkHandler;

impl LinkHandler for WikiLinkHandler {
    fn extract_links(&self, input: String) -> (links: Vec<String>) {
        extract_links_str(input.as_str())
    }
}

} // verus!
