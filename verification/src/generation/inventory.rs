//! What a capture copies, and what an upgrade reads, from a source Binary DB
//! authority directory, decided from its listing: only declared schema files
//! and the `.locks` directory may be there.

use vstd::bytes::*;
use vstd::prelude::*;

use crate::generation::activation::{
    declared_local_file, names_contain, names_view, path_join, spec_path_join, AuthorityEntry,
    AuthorityEntryKind,
};
use crate::generation::paths::{spec_strip_suffix, strip_suffix_chars};
use crate::json::spec_fold;
use crate::text::{chars_of, push_decimal, push_str, str_eq, string_from_chars};

verus! {

/// How a captured authority file is copied: byte for byte, or with its tree
/// locators made canonical against the tree pack table at `tree_pack_source`.
#[derive(Clone, Debug, PartialEq, Eq)]
pub enum CopyStrategy {
    Exact,
    CanonicalTreeLocators { tree_pack_source: String },
}

/// One file a capture copies: where it is read, where it goes in the
/// generation, and how.
#[derive(Clone, Debug, PartialEq, Eq)]
pub struct CopyInput {
    pub source: String,
    pub relative_path: String,
    pub strategy: CopyStrategy,
}

/// A copy input as plain values: source, relative path, and the tree pack
/// source of a canonicalizing copy.
pub open spec fn copy_input_view(c: CopyInput) -> (Seq<char>, Seq<char>, Option<Seq<char>>) {
    (
        c.source@,
        c.relative_path@,
        match c.strategy {
            CopyStrategy::Exact => None,
            CopyStrategy::CanonicalTreeLocators { tree_pack_source } => Some(tree_pack_source@),
        },
    )
}

pub open spec fn copy_inputs_view(cs: Seq<CopyInput>) -> Seq<(Seq<char>, Seq<char>, Option<Seq<char>>)> {
    Seq::new(cs.len(), |i: int| copy_input_view(cs[i]))
}

/// A `.bin` file that holds nothing but its layout header.
pub open spec fn header_only(e: AuthorityEntry) -> bool {
    spec_strip_suffix(e.name@, ".bin"@) is Some && e.byte_size <= 4
}

/// One listed entry of the capture source: skipped (`Ok(None)`), copied, or
/// refused.
pub open spec fn capture_entry(
    root: Seq<char>,
    e: AuthorityEntry,
    bins: Seq<Seq<char>>,
    idxs: Seq<Seq<char>>,
) -> Result<Option<(Seq<char>, Seq<char>, Option<Seq<char>>)>, Seq<char>> {
    if e.kind == AuthorityEntryKind::Directory && e.name@ == ".locks"@ {
        Ok(None)
    } else if e.kind != AuthorityEntryKind::File {
        Err("Binary DB authority contains an undeclared non-file path: "@ + spec_path_join(root, e.name@))
    } else if !declared_local_file(e.name@, bins, idxs) {
        Err("Binary DB authority contains an undeclared file: "@ + "\""@ + e.name@ + "\""@)
    } else if header_only(e) {
        Err("Binary DB authority contains forbidden header-only file: "@ + "\""@ + e.name@ + "\""@)
    } else {
        Ok(
            Some(
                (
                    spec_path_join(root, e.name@),
                    "local/"@ + e.name@,
                    if e.name@ == "tree.bin"@ {
                        Some(spec_path_join(root, "tree_pack.bin"@))
                    } else {
                        None
                    },
                ),
            ),
        )
    }
}

/// Adds the copy input of one entry, refusing a relative path seen before.
pub open spec fn capture_step(root: Seq<char>, bins: Seq<Seq<char>>, idxs: Seq<Seq<char>>) -> spec_fn(
    Seq<(Seq<char>, Seq<char>, Option<Seq<char>>)>,
    AuthorityEntry,
) -> Result<Seq<(Seq<char>, Seq<char>, Option<Seq<char>>)>, Seq<char>> {
    |acc: Seq<(Seq<char>, Seq<char>, Option<Seq<char>>)>, e: AuthorityEntry|
        match capture_entry(root, e, bins, idxs) {
            Err(m) => Err(m),
            Ok(None) => Ok(acc),
            Ok(Some(c)) => if exists|k: int| 0 <= k < acc.len() && #[trigger] acc[k].1 == c.1 {
                Err("Binary DB generation has duplicate source path: "@ + "\""@ + c.1 + "\""@)
            } else {
                Ok(acc.push(c))
            },
        }
}

fn has_relative_path(inputs: &Vec<CopyInput>, relative_path: &str) -> (r: bool)
    ensures
        r == exists|k: int|
            0 <= k < inputs@.len() && (#[trigger] copy_inputs_view(inputs@)[k]).1 == relative_path@,
{
    let mut k: usize = 0;
    while k < inputs.len()
        invariant
            k <= inputs@.len(),
            forall|t: int| 0 <= t < k ==> (#[trigger] copy_inputs_view(inputs@)[t]).1 != relative_path@,
        decreases inputs@.len() - k,
    {
        if str_eq(inputs[k].relative_path.as_str(), relative_path) {
            assert(copy_inputs_view(inputs@)[k as int].1 == relative_path@);
            return true;
        }
        k = k + 1;
    }
    false
}

fn quoted(head: &str, name: &str) -> (s: String)
    ensures
        s@ == head@ + "\""@ + name@ + "\""@,
{
    let mut v = chars_of(head);
    push_str(&mut v, "\"");
    push_str(&mut v, name);
    push_str(&mut v, "\"");
    string_from_chars(&v)
}

/// The files a capture copies from the authority at `authority_root`, given
/// its entries in name order (links are not followed). The `.locks`
/// directory is passed over; every other entry must be a declared schema
/// file that is more than a layout header. Each is copied to `local/` under
/// its name, `tree.bin` with canonical tree locators. Fails at the first
/// entry that breaks a rule.
pub fn collect_copy_inputs(
    authority_root: &str,
    entries: &[AuthorityEntry],
    declared_bin_paths: &[&str],
    declared_index_paths: &[&str],
) -> (r: Result<Vec<CopyInput>, String>)
    ensures
        match r {
            Ok(v) => spec_fold(
                entries@,
                Seq::empty(),
                capture_step(
                    authority_root@,
                    names_view(declared_bin_paths@),
                    names_view(declared_index_paths@),
                ),
            ) == Ok::<Seq<(Seq<char>, Seq<char>, Option<Seq<char>>)>, Seq<char>>(copy_inputs_view(v@)),
            Err(m) => spec_fold(
                entries@,
                Seq::empty(),
                capture_step(
                    authority_root@,
                    names_view(declared_bin_paths@),
                    names_view(declared_index_paths@),
                ),
            ) == Err::<Seq<(Seq<char>, Seq<char>, Option<Seq<char>>)>, Seq<char>>(m@),
        },
{
    let ghost root = authority_root@;
    let ghost bins = names_view(declared_bin_paths@);
    let ghost idxs = names_view(declared_index_paths@);
    let ghost es = entries@;
    let ghost step = capture_step(root, bins, idxs);
    let mut inputs: Vec<CopyInput> = Vec::new();
    let mut i: usize = 0;
    assert(es.subrange(0, 0) =~= Seq::<AuthorityEntry>::empty());
    assert(copy_inputs_view(inputs@) =~= Seq::empty());
    while i < entries.len()
        invariant
            root == authority_root@,
            bins == names_view(declared_bin_paths@),
            idxs == names_view(declared_index_paths@),
            es == entries@,
            step == capture_step(root, bins, idxs),
            i <= es.len(),
            spec_fold(es.subrange(0, i as int), Seq::empty(), step) == Ok::<
                Seq<(Seq<char>, Seq<char>, Option<Seq<char>>)>,
                Seq<char>,
            >(copy_inputs_view(inputs@)),
        decreases es.len() - i,
    {
        let ghost acc = copy_inputs_view(inputs@);
        proof {
            assert(es.subrange(0, i + 1).drop_last() =~= es.subrange(0, i as int));
            assert(es.subrange(0, i + 1).last() == es[i as int]);
        }
        let entry = &entries[i];
        let ghost outcome = capture_entry(root, *entry, bins, idxs);
        if entry.kind == AuthorityEntryKind::Directory && str_eq(entry.name.as_str(), ".locks") {
            i = i + 1;
            continue;
        }
        if entry.kind != AuthorityEntryKind::File {
            let mut v = chars_of("Binary DB authority contains an undeclared non-file path: ");
            let path = path_join(authority_root, entry.name.as_str());
            push_str(&mut v, path.as_str());
            let m = string_from_chars(&v);
            proof {
                assert(outcome == Err::<Option<(Seq<char>, Seq<char>, Option<Seq<char>>)>, Seq<char>>(m@));
                crate::json::lemma_fold_error_extends(es, Seq::empty(), step, i + 1, m@);
            }
            return Err(m);
        }
        let name = chars_of(entry.name.as_str());
        let is_bin = strip_suffix_chars(&name, ".bin").is_some();
        let allowed = if is_bin {
            names_contain(declared_bin_paths, &name)
        } else if strip_suffix_chars(&name, ".idx").is_some() {
            names_contain(declared_index_paths, &name)
        } else {
            false
        };
        assert(allowed == declared_local_file(entry.name@, bins, idxs));
        if !allowed {
            let m = quoted("Binary DB authority contains an undeclared file: ", entry.name.as_str());
            proof {
                assert(outcome == Err::<Option<(Seq<char>, Seq<char>, Option<Seq<char>>)>, Seq<char>>(m@));
                crate::json::lemma_fold_error_extends(es, Seq::empty(), step, i + 1, m@);
            }
            return Err(m);
        }
        if is_bin && entry.byte_size <= 4 {
            let m = quoted("Binary DB authority contains forbidden header-only file: ", entry.name.as_str());
            proof {
                assert(outcome == Err::<Option<(Seq<char>, Seq<char>, Option<Seq<char>>)>, Seq<char>>(m@));
                crate::json::lemma_fold_error_extends(es, Seq::empty(), step, i + 1, m@);
            }
            return Err(m);
        }
        let source = path_join(authority_root, entry.name.as_str());
        let relative_path = crate::text::cat2("local/", entry.name.as_str());
        let strategy = if str_eq(entry.name.as_str(), "tree.bin") {
            CopyStrategy::CanonicalTreeLocators {
                tree_pack_source: path_join(authority_root, "tree_pack.bin"),
            }
        } else {
            CopyStrategy::Exact
        };
        let input = CopyInput { source, relative_path, strategy };
        assert(outcome == Ok::<_, Seq<char>>(Some(copy_input_view(input))));
        if has_relative_path(&inputs, input.relative_path.as_str()) {
            let m = quoted("Binary DB generation has duplicate source path: ", input.relative_path.as_str());
            proof {
                crate::json::lemma_fold_error_extends(es, Seq::empty(), step, i + 1, m@);
            }
            return Err(m);
        }
        inputs.push(input);
        assert(copy_inputs_view(inputs@) =~= acc.push(copy_input_view(input)));
        i = i + 1;
    }
    assert(es.subrange(0, es.len() as int) =~= es);
    Ok(inputs)
}

// ----- the source of a u64-second upgrade ------------------------------------------

/// One listed entry of an upgrade source: skipped (`Ok(None)`), read as
/// `(name, path)`, or refused. A read file must have layout 1.
pub open spec fn upgrade_source_entry(
    root: Seq<char>,
    e: AuthorityEntry,
    bins: Seq<Seq<char>>,
    idxs: Seq<Seq<char>>,
) -> Result<Option<(Seq<char>, Seq<char>)>, Seq<char>> {
    let path = spec_path_join(root, e.name@);
    if e.kind == AuthorityEntryKind::Directory && e.name@ == ".locks"@ {
        Ok(None)
    } else if e.kind != AuthorityEntryKind::File {
        Err("Binary DB source authority contains an undeclared non-file path: "@ + path)
    } else if !declared_local_file(e.name@, bins, idxs) {
        Err("Binary DB source authority contains an undeclared file: "@ + "\""@ + e.name@ + "\""@)
    } else if e.header.len() < 4 {
        Err("failed to read "@ + path + " layout header: failed to fill whole buffer"@)
    } else if spec_u32_from_le_bytes(e.header@.subrange(0, 4)) != 1 {
        Err(
            "u64-second upgrade requires layout_id 1, found "@ + crate::text::spec_decimal(
                spec_u32_from_le_bytes(e.header@.subrange(0, 4)) as nat,
            ) + " at "@ + path,
        )
    } else {
        Ok(Some((e.name@, path)))
    }
}

pub open spec fn upgrade_source_step(root: Seq<char>, bins: Seq<Seq<char>>, idxs: Seq<Seq<char>>) -> spec_fn(
    Seq<(Seq<char>, Seq<char>)>,
    AuthorityEntry,
) -> Result<Seq<(Seq<char>, Seq<char>)>, Seq<char>> {
    |acc: Seq<(Seq<char>, Seq<char>)>, e: AuthorityEntry|
        match upgrade_source_entry(root, e, bins, idxs) {
            Err(m) => Err(m),
            Ok(None) => Ok(acc),
            Ok(Some(f)) => Ok(acc.push(f)),
        }
}

pub open spec fn name_paths_view(fs: Seq<(String, String)>) -> Seq<(Seq<char>, Seq<char>)> {
    Seq::new(fs.len(), |i: int| (fs[i].0@, fs[i].1@))
}

/// The files an upgrade reads from the source authority at
/// `authority_root`, as `(name, path)`, given its entries in name order
/// with the first bytes of each file. The `.locks` directory is passed
/// over; every other entry must be a declared schema file with layout 1.
/// Fails at the first entry that breaks a rule.
pub fn source_authority_files(
    authority_root: &str,
    entries: &[AuthorityEntry],
    declared_bin_paths: &[&str],
    declared_index_paths: &[&str],
) -> (r: Result<Vec<(String, String)>, String>)
    ensures
        match r {
            Ok(v) => spec_fold(
                entries@,
                Seq::empty(),
                upgrade_source_step(
                    authority_root@,
                    names_view(declared_bin_paths@),
                    names_view(declared_index_paths@),
                ),
            ) == Ok::<Seq<(Seq<char>, Seq<char>)>, Seq<char>>(name_paths_view(v@)),
            Err(m) => spec_fold(
                entries@,
                Seq::empty(),
                upgrade_source_step(
                    authority_root@,
                    names_view(declared_bin_paths@),
                    names_view(declared_index_paths@),
                ),
            ) == Err::<Seq<(Seq<char>, Seq<char>)>, Seq<char>>(m@),
        },
{
    let ghost root = authority_root@;
    let ghost bins = names_view(declared_bin_paths@);
    let ghost idxs = names_view(declared_index_paths@);
    let ghost es = entries@;
    let ghost step = upgrade_source_step(root, bins, idxs);
    let mut files: Vec<(String, String)> = Vec::new();
    let mut i: usize = 0;
    assert(es.subrange(0, 0) =~= Seq::<AuthorityEntry>::empty());
    assert(name_paths_view(files@) =~= Seq::empty());
    while i < entries.len()
        invariant
            root == authority_root@,
            bins == names_view(declared_bin_paths@),
            idxs == names_view(declared_index_paths@),
            es == entries@,
            step == upgrade_source_step(root, bins, idxs),
            i <= es.len(),
            spec_fold(es.subrange(0, i as int), Seq::empty(), step) == Ok::<
                Seq<(Seq<char>, Seq<char>)>,
                Seq<char>,
            >(name_paths_view(files@)),
        decreases es.len() - i,
    {
        let ghost acc = name_paths_view(files@);
        proof {
            assert(es.subrange(0, i + 1).drop_last() =~= es.subrange(0, i as int));
            assert(es.subrange(0, i + 1).last() == es[i as int]);
        }
        let entry = &entries[i];
        if entry.kind == AuthorityEntryKind::Directory && str_eq(entry.name.as_str(), ".locks") {
            i = i + 1;
            continue;
        }
        let ghost outcome = upgrade_source_entry(root, *entry, bins, idxs);
        let path = path_join(authority_root, entry.name.as_str());
        if entry.kind != AuthorityEntryKind::File {
            let mut v = chars_of("Binary DB source authority contains an undeclared non-file path: ");
            push_str(&mut v, path.as_str());
            let m = string_from_chars(&v);
            proof {
                assert(outcome == Err::<Option<(Seq<char>, Seq<char>)>, Seq<char>>(m@));
                crate::json::lemma_fold_error_extends(es, Seq::empty(), step, i + 1, m@);
            }
            return Err(m);
        }
        let name = chars_of(entry.name.as_str());
        let allowed = if strip_suffix_chars(&name, ".bin").is_some() {
            names_contain(declared_bin_paths, &name)
        } else if strip_suffix_chars(&name, ".idx").is_some() {
            names_contain(declared_index_paths, &name)
        } else {
            false
        };
        assert(allowed == declared_local_file(entry.name@, bins, idxs));
        if !allowed {
            let m = quoted("Binary DB source authority contains an undeclared file: ", entry.name.as_str());
            proof {
                assert(outcome == Err::<Option<(Seq<char>, Seq<char>)>, Seq<char>>(m@));
                crate::json::lemma_fold_error_extends(es, Seq::empty(), step, i + 1, m@);
            }
            return Err(m);
        }
        if entry.header.len() < 4 {
            let mut v = chars_of("failed to read ");
            push_str(&mut v, path.as_str());
            push_str(&mut v, " layout header: failed to fill whole buffer");
            let m = string_from_chars(&v);
            proof {
                assert(outcome == Err::<Option<(Seq<char>, Seq<char>)>, Seq<char>>(m@));
                crate::json::lemma_fold_error_extends(es, Seq::empty(), step, i + 1, m@);
            }
            return Err(m);
        }
        let layout = u32_from_le_bytes(vstd::slice::slice_subrange(entry.header.as_slice(), 0, 4));
        if layout != 1 {
            let mut v = chars_of("u64-second upgrade requires layout_id 1, found ");
            push_decimal(&mut v, layout as u64);
            push_str(&mut v, " at ");
            push_str(&mut v, path.as_str());
            let m = string_from_chars(&v);
            proof {
                assert(outcome == Err::<Option<(Seq<char>, Seq<char>)>, Seq<char>>(m@));
                crate::json::lemma_fold_error_extends(es, Seq::empty(), step, i + 1, m@);
            }
            return Err(m);
        }
        let ghost f = (entry.name@, path@);
        files.push((entry.name.clone(), path));
        assert(name_paths_view(files@) =~= acc.push(f));
        i = i + 1;
    }
    assert(es.subrange(0, es.len() as int) =~= es);
    Ok(files)
}

} // verus!
