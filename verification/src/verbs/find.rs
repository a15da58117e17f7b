//! `stk find <path> [--name PATTERN]`: a native, `Budget`-aware recursive file listing
//! (not a `find` wrapper). `--name` is a substring match, not a glob. Stateless. The
//! walk over the file system is the caller's; the choosing, ordering and rendering of
//! what it found are here.
use vstd::prelude::*;

use crate::budget::selector::views;
use crate::budget::tokenizer::{ApproximateCounter, TokenCounter};
use crate::compression::{write_output, WriteOutcome};
use crate::io::{line_bytes, sent, write_line, OutputSink};
use crate::text::{chars_of, contains, contains_exec, eq_str, lemma_lex_total, lemma_lex_transitive, lex_less, lex_lt, push_str};
use crate::verbs::filesystem_budget::budget_too_small_message;

verus! {

broadcast use {vstd::seq_lib::group_to_multiset_ensures, vstd::multiset::group_multiset_axioms};

/// What `find`'s arguments ask for: the root to search (`.` when none is given, the first
/// given otherwise) and the `--name` substring (the last given), or `None` for a
/// `--name` without a value.
pub open spec fn parse_rest(args: Seq<Seq<char>>, path: Option<Seq<char>>, name: Option<Seq<char>>) -> Option<(Option<Seq<char>>, Option<Seq<char>>)>
    decreases args.len(),
{
    if args.len() == 0 {
        Some((path, name))
    } else if args[0] == "--name"@ {
        if args.len() < 2 {
            None
        } else {
            parse_rest(args.skip(2), path, Some(args[1]))
        }
    } else if path is None {
        parse_rest(args.drop_first(), Some(args[0]), name)
    } else {
        parse_rest(args.drop_first(), path, name)
    }
}

pub open spec fn root_of(path: Option<Seq<char>>) -> Seq<char> {
    match path {
        Some(p) => p,
        None => "."@,
    }
}

/// Reads `find`'s arguments (see [`parse_rest`]): the root and the name filter, or the
/// usage error for a `--name` without a value.
pub fn parse_args(args: &[String]) -> (r: Result<(String, Option<String>), String>)
    ensures
        match r {
            Ok((root, name)) => parse_rest(views(args@), None, None) matches Some((p, n)) && root@ == root_of(p)
                && crate::history::opt_view(name) == n,
            Err(e) => parse_rest(views(args@), None, None) is None && e@ == "find --name requires a value"@,
        },
{
    let ghost a = views(args@);
    let mut path: Option<String> = None;
    let mut name: Option<String> = None;
    let mut i: usize = 0;
    assert(a.skip(0) == a);
    while i < args.len()
        invariant
            i <= args.len(),
            a == views(args@),
            parse_rest(a, None, None) == parse_rest(a.skip(i as int), crate::history::opt_view(path), crate::history::opt_view(name)),
        decreases args.len() - i,
    {
        let ghost rest = a.skip(i as int);
        assert(rest[0] == args@[i as int]@);
        assert(rest.drop_first() == a.skip(i + 1));
        if eq_str(&chars_of(args[i].as_str()), "--name") {
            if i + 1 >= args.len() {
                return Err("find --name requires a value".to_string());
            }
            assert(rest.skip(2) == a.skip(i + 2));
            assert(rest[1] == args@[i + 1]@);
            name = Some(args[i + 1].clone());
            i += 2;
        } else {
            if path.is_none() {
                path = Some(args[i].clone());
            }
            i += 1;
        }
    }
    assert(a.skip(i as int) == Seq::<Seq<char>>::empty());
    let root = match path {
        Some(p) => p,
        None => ".".to_string(),
    };
    Ok((root, name))
}

/// The strings are in ascending order.
pub open spec fn sorted(s: Seq<Seq<char>>) -> bool {
    forall|i: int, j: int| 0 <= i < j < s.len() ==> !lex_lt(s[j], s[i])
}

/// `items` in ascending order (`Vec::sort`), duplicates kept.
pub fn sort_strings(items: Vec<String>) -> (r: Vec<String>)
    ensures
        sorted(views(r@)),
        views(r@).to_multiset() == views(items@).to_multiset(),
{
    let ghost src = views(items@);
    let mut out: Vec<String> = Vec::new();
    let mut i: usize = 0;
    while i < items.len()
        invariant
            i <= items.len(),
            src == views(items@),
            sorted(views(out@)),
            views(out@).to_multiset() == src.take(i as int).to_multiset(),
        decreases items.len() - i,
    {
        let item = items[i].clone();
        let item_chars = chars_of(item.as_str());
        let ghost os = views(out@);
        let mut p: usize = 0;
        while p < out.len() && !lex_less(&item_chars, &chars_of(out[p].as_str()))
            invariant
                p <= out.len(),
                os == views(out@),
                item_chars@ == item@,
                forall|j: int| 0 <= j < p ==> !lex_lt(item@, os[j]),
            decreases out.len() - p,
        {
            p += 1;
        }
        out.insert(p, item);
        proof {
            let ns = views(out@);
            assert(ns == os.insert(p as int, item@));
            assert forall|a: int, b: int| 0 <= a < b < ns.len() implies !lex_lt(ns[b], ns[a]) by {
                if a < p && b == p {
                    lemma_lex_total(item@, os[a]);
                } else if a == p && b > p {
                    if lex_lt(ns[b], item@) {
                        lemma_lex_transitive(ns[b], item@, os[p as int]);
                        lemma_lex_total(os[p as int], ns[b]);
                    }
                } else if a < p && b > p {
                    assert(ns[a] == os[a]);
                    assert(ns[b] == os[b - 1]);
                } else if b < p {
                } else {
                    assert(ns[a] == os[a - 1]);
                    assert(ns[b] == os[b - 1]);
                }
            }
            assert(ns.remove(p as int) == os);
            assert(ns.to_multiset().remove(item@) == os.to_multiset());
            assert(ns.to_multiset() =~= os.to_multiset().insert(item@));
            assert(src.take(i + 1) == src.take(i as int).push(src[i as int]));
        }
        i += 1;
    }
    assert(src.take(items.len() as int) == src);
    out
}

/// A found file is listed when there is no name filter, or when its name (if it has one
/// that is valid Unicode) holds the filter text.
pub open spec fn name_matches(file_name: Option<Seq<char>>, filter: Option<Seq<char>>) -> bool {
    match filter {
        None => true,
        Some(f) => match file_name {
            Some(n) => contains(n, f),
            None => false,
        },
    }
}

/// The displayed paths of the found files that the name filter keeps, in walk order.
pub open spec fn kept(found: Seq<(Seq<char>, Option<Seq<char>>)>, filter: Option<Seq<char>>) -> Seq<Seq<char>>
    decreases found.len(),
{
    if found.len() == 0 {
        Seq::empty()
    } else if name_matches(found.last().1, filter) {
        kept(found.drop_last(), filter).push(found.last().0)
    } else {
        kept(found.drop_last(), filter)
    }
}

pub open spec fn found_view(found: Seq<(String, Option<String>)>) -> Seq<(Seq<char>, Option<Seq<char>>)> {
    found.map_values(|f: (String, Option<String>)| (f.0@, crate::history::opt_view(f.1)))
}

/// The displayed paths `find` lists, from the files the walk found (each as its
/// displayed path and its file name): the ones the name filter keeps.
pub fn keep_matching(found: &Vec<(String, Option<String>)>, filter: &Option<String>) -> (r: Vec<String>)
    ensures
        views(r@) == kept(found_view(found@), crate::history::opt_view(*filter)),
{
    let ghost fs = found_view(found@);
    let ghost f = crate::history::opt_view(*filter);
    let filter_chars: Option<Vec<char>> = match filter {
        Some(s) => Some(chars_of(s.as_str())),
        None => None,
    };
    let mut out: Vec<String> = Vec::new();
    let mut i: usize = 0;
    while i < found.len()
        invariant
            i <= found.len(),
            fs == found_view(found@),
            f == crate::history::opt_view(*filter),
            match filter_chars { Some(v) => f == Some(v@), None => f is None },
            views(out@) == kept(fs.take(i as int), f),
        decreases found.len() - i,
    {
        let ghost t = fs.take(i + 1);
        assert(t.drop_last() == fs.take(i as int));
        assert(t.last() == fs[i as int]);
        let matches_name = match &filter_chars {
            None => true,
            Some(fc) => match &found[i].1 {
                Some(n) => contains_exec(&chars_of(n.as_str()), fc),
                None => false,
            },
        };
        if matches_name {
            let ghost before = views(out@);
            let p = found[i].0.clone();
            out.push(p);
            assert(views(out@) == before.push(p@));
        }
        i += 1;
    }
    assert(fs.take(found.len() as int) == fs);
    out
}

pub open spec fn search_failed_message(root: Seq<char>, err: Seq<char>) -> Seq<char> {
    "stk: failed to search '"@ + root + "': "@ + err
}

/// The exit code of `stk find` once the walk from `root` found `walked` (each file as its
/// displayed path and its file name) or failed: the kept paths, sorted and budgeted if
/// asked, go to `stdout`.
pub fn finish<O: OutputSink, E: OutputSink>(
    root: &str,
    walked: Result<Vec<(String, Option<String>)>, String>,
    filter: &Option<String>,
    stdout: &mut O,
    stderr: &mut E,
    budget: Option<usize>,
) -> (r: i32)
    ensures
        walked matches Err(e) ==> r == 1 && *final(stdout) == *old(stdout) && sent(
            *old(stderr),
            *final(stderr),
            line_bytes(search_failed_message(root@, e@)),
        ),
        walked is Ok && old(stdout).accepts_all() ==> exists|listed: Seq<Seq<char>>|
            sorted(listed) && listed.to_multiset() == kept(found_view(walked->Ok_0@), crate::history::opt_view(*filter)).to_multiset()
                && match crate::verbs::filesystem_budget::budgeted_text(&ApproximateCounter, listed, budget) {
                Ok(t) => r == 0 && *final(stderr) == *old(stderr) && final(stdout).written() == old(stdout).written()
                    + vstd::utf8::encode_utf8(t),
                Err(m) => r == 2 && *final(stdout) == *old(stdout) && sent(
                    *old(stderr),
                    *final(stderr),
                    line_bytes(crate::verbs::filesystem_budget::budget_too_small_message(budget->0 as nat, "any results"@, m)),
                ),
            },
{
    let found = match walked {
        Ok(found) => found,
        Err(err) => {
            let mut msg = chars_of("stk: failed to search '");
            push_str(&mut msg, root);
            push_str(&mut msg, "': ");
            push_str(&mut msg, err.as_str());
            let _ = write_line(stderr, &msg);
            return 1;
        },
    };
    let entries = sort_strings(keep_matching(&found, filter));
    let rendered = crate::verbs::filesystem_budget::render_optionally_budgeted(
        &entries,
        budget,
        &ApproximateCounter,
        "any results",
        stderr,
    );
    let rendered = match rendered {
        Ok(r) => r,
        Err(code) => return code,
    };
    match write_output(stdout, rendered.as_str().as_bytes()) {
        Ok(()) => 0,
        Err(WriteOutcome::BrokenPipe) => 0,
        Err(WriteOutcome::Failed(err)) => {
            let mut msg = chars_of("stk: failed to write output: ");
            push_str(&mut msg, err.as_str());
            let _ = write_line(stderr, &msg);
            1
        },
        Err(WriteOutcome::AlreadyReported(code)) => code,
    }
}

} // verus!
