//! File-catalog validation: reconcile declared inventories against a
//! directory listing.
//!
//! For every module with a non-empty catalog, the module's source directory
//! is derived from its `source_file`, and its declared file names are held
//! against the names actually present there. A declared name that is not on
//! disk is a ghost; a source file on disk that is neither structural
//! (`mod.rs`, `lib.rs`, `main.rs`) nor declared is an orphan.

use vstd::prelude::*;

use crate::report::{GhostEntry, GhostEntryV, OrphanEntry, OrphanEntryV, ValidationReport};
use crate::text::{chars_eq, chars_eq_str, chars_to_string, dec_of, push_dec, str_to_chars};
use crate::types::{DocV, FileV, ModuleDoc, docs_view};

verus! {

/// Everything before the last slash of a path; empty when there is none.
pub open spec fn dir_of(s: Seq<char>) -> Seq<char>
    decreases s.len(),
{
    if s.len() == 0 {
        Seq::empty()
    } else if s.last() == '/' {
        s.drop_last()
    } else {
        dir_of(s.drop_last())
    }
}

/// Where the last slash stands at `k`, the directory is the prefix up to it.
proof fn lemma_dir_of_at(s: Seq<char>, k: int)
    requires
        0 <= k < s.len(),
        s[k] == '/',
        forall|i: int| k < i < s.len() ==> s[i] != '/',
    ensures
        dir_of(s) == s.subrange(0, k),
    decreases s.len(),
{
    if k == s.len() - 1 {
        assert(s.drop_last() =~= s.subrange(0, k));
    } else {
        assert(s.last() != '/');
        let t = s.drop_last();
        assert(forall|i: int| k < i < t.len() ==> t[i] == s[i]);
        lemma_dir_of_at(t, k);
        assert(t.subrange(0, k) =~= s.subrange(0, k));
    }
}

/// Where no slash occurs at all, the directory is empty.
proof fn lemma_dir_of_none(s: Seq<char>)
    requires
        forall|i: int| 0 <= i < s.len() ==> s[i] != '/',
    ensures
        dir_of(s) == Seq::<char>::empty(),
    decreases s.len(),
{
    if s.len() > 0 {
        lemma_dir_of_none(s.drop_last());
    }
}

/// Compute the directory prefix of a path.
pub fn dir_of_chars(s: &[char]) -> (r: Vec<char>)
    ensures
        r@ == dir_of(s@),
{
    let n = s.len();
    let mut k: usize = n;
    while k > 0 && s[k - 1] != '/'
        invariant
            k <= n,
            n == s@.len(),
            forall|i: int| k <= i < n ==> s@[i] != '/',
        decreases k,
    {
        k = k - 1;
    }
    if k == 0 {
        proof {
            lemma_dir_of_none(s@);
        }
        Vec::new()
    } else {
        proof {
            lemma_dir_of_at(s@, k - 1);
        }
        let mut r: Vec<char> = Vec::new();
        let mut i: usize = 0;
        while i < k - 1
            invariant
                1 <= k <= n,
                n == s@.len(),
                i <= k - 1,
                r@ == s@.subrange(0, i as int),
            decreases k - i,
        {
            r.push(s[i]);
            assert(r@ =~= s@.subrange(0, i + 1 as int));
            i = i + 1;
        }
        r
    }
}

/// A name occurs in a list of names.
pub open spec fn name_in(names: Seq<Seq<char>>, x: Seq<char>) -> bool {
    exists|i: int| 0 <= i < names.len() && names[i] == x
}

/// `s` ends with `suffix`.
pub open spec fn ends_with(s: Seq<char>, suffix: Seq<char>) -> bool {
    s.len() >= suffix.len() && s.subrange(s.len() - suffix.len(), s.len() as int) == suffix
}

/// A structural entry file, never counted as an orphan.
pub open spec fn is_structural(name: Seq<char>) -> bool {
    name == "mod.rs"@ || name == "lib.rs"@ || name == "main.rs"@
}

/// The declared names of one catalog.
pub open spec fn catalog_names(files: Seq<FileV>) -> Seq<Seq<char>> {
    files.map_values(|f: FileV| f.name)
}

/// The ghosts of one catalog against one listing, in catalog order.
pub open spec fn ghosts_of_files(
    files: Seq<FileV>,
    listing: Seq<Seq<char>>,
    elem: Seq<char>,
    dir: Seq<char>,
) -> Seq<GhostEntryV>
    decreases files.len(),
{
    if files.len() == 0 {
        Seq::empty()
    } else {
        ghosts_of_files(files.drop_last(), listing, elem, dir) + if !name_in(
            listing,
            files.last().name,
        ) {
            seq![GhostEntryV { element: elem, filename: files.last().name, source_dir: dir }]
        } else {
            Seq::empty()
        }
    }
}

/// The orphans of one listing against one catalog, in listing order.
pub open spec fn orphans_of_listing(
    listing: Seq<Seq<char>>,
    catalog: Seq<Seq<char>>,
    elem: Seq<char>,
    dir: Seq<char>,
) -> Seq<OrphanEntryV>
    decreases listing.len(),
{
    if listing.len() == 0 {
        Seq::empty()
    } else {
        orphans_of_listing(listing.drop_last(), catalog, elem, dir) + if ends_with(
            listing.last(),
            ".rs"@,
        ) && !is_structural(listing.last()) && !name_in(catalog, listing.last()) {
            seq![OrphanEntryV { element: elem, filename: listing.last(), source_dir: dir }]
        } else {
            Seq::empty()
        }
    }
}

/// All ghosts of a document list, documents with empty catalogs skipped.
pub open spec fn ghosts_of(docs: Seq<DocV>, listings: Seq<Seq<Seq<char>>>) -> Seq<GhostEntryV>
    decreases docs.len(),
{
    if docs.len() == 0 || docs.len() != listings.len() {
        Seq::empty()
    } else {
        ghosts_of(docs.drop_last(), listings.drop_last()) + if docs.last().files.len() > 0 {
            ghosts_of_files(
                docs.last().files,
                listings.last(),
                docs.last().mod_path,
                dir_of(docs.last().source_file),
            )
        } else {
            Seq::empty()
        }
    }
}

/// All orphans of a document list, documents with empty catalogs skipped.
pub open spec fn orphans_of(docs: Seq<DocV>, listings: Seq<Seq<Seq<char>>>) -> Seq<OrphanEntryV>
    decreases docs.len(),
{
    if docs.len() == 0 || docs.len() != listings.len() {
        Seq::empty()
    } else {
        orphans_of(docs.drop_last(), listings.drop_last()) + if docs.last().files.len() > 0 {
            orphans_of_listing(
                listings.last(),
                catalog_names(docs.last().files),
                docs.last().mod_path,
                dir_of(docs.last().source_file),
            )
        } else {
            Seq::empty()
        }
    }
}

/// The view of a per-module directory listing.
pub open spec fn listing_view(l: Seq<String>) -> Seq<Seq<char>> {
    l.map_values(|s: String| s@)
}

/// The view of all per-module directory listings.
pub open spec fn listings_view(ls: Seq<Vec<String>>) -> Seq<Seq<Seq<char>>> {
    ls.map_values(|l: Vec<String>| listing_view(l@))
}

/// Whether `x` occurs among `names`.
pub fn name_in_pub(names: &Vec<String>, x: &[char]) -> (r: bool)
    ensures
        r == name_in(listing_view(names@), x@),
{
    let ghost nv = listing_view(names@);
    let mut i: usize = 0;
    while i < names.len()
        invariant
            nv == listing_view(names@),
            nv.len() == names@.len(),
            i <= names@.len(),
            forall|j: int| 0 <= j < i ==> nv[j] != x@,
        decreases names@.len() - i,
    {
        assert(nv[i as int] == names@[i as int]@);
        let nc = str_to_chars(names[i].as_str());
        if chars_eq(nc.as_slice(), x) {
            return true;
        }
        i = i + 1;
    }
    false
}

/// Whether the catalog of `files` declares the name `x`.
fn catalog_has(files: &Vec<crate::types::FileEntry>, x: &[char]) -> (r: bool)
    ensures
        r == name_in(
            catalog_names(files@.map_values(|f: crate::types::FileEntry| f@)),
            x@,
        ),
{
    let ghost cv = catalog_names(files@.map_values(|f: crate::types::FileEntry| f@));
    let mut i: usize = 0;
    proof {
        assert(cv.len() == files@.len());
    }
    while i < files.len()
        invariant
            cv == catalog_names(files@.map_values(|f: crate::types::FileEntry| f@)),
            cv.len() == files@.len(),
            i <= files@.len(),
            forall|j: int| 0 <= j < i ==> cv[j] != x@,
        decreases files@.len() - i,
    {
        proof {
            assert(files@.map_values(|f: crate::types::FileEntry| f@)[i as int]
                == files@[i as int]@);
            assert(cv[i as int] == files@[i as int]@.name);
        }
        let nc = str_to_chars(files[i].name.as_str());
        if chars_eq(nc.as_slice(), x) {
            return true;
        }
        i = i + 1;
    }
    false
}

/// Whether `s` ends in `.rs`.
pub fn ends_with_rs_pub(s: &[char]) -> (r: bool)
    ensures
        r == ends_with(s@, ".rs"@),
{
    proof {
        reveal_strlit(".rs");
    }
    if s.len() < 3 {
        return false;
    }
    let n = s.len();
    let r = s[n - 3] == '.' && s[n - 2] == 'r' && s[n - 1] == 's';
    proof {
        let suf = s@.subrange(s@.len() - 3, s@.len() as int);
        assert(suf.len() == 3);
        assert(suf[0] == s@[n - 3] && suf[1] == s@[n - 2] && suf[2] == s@[n - 1]);
        if r {
            assert(suf =~= ".rs"@);
        } else {
            assert(suf != ".rs"@) by {
                assert(".rs"@[0] == '.' && ".rs"@[1] == 'r' && ".rs"@[2] == 's');
            }
        }
    }
    r
}

/// Whether `s` is one of the structural entry files.
fn is_structural_exec(s: &[char]) -> (r: bool)
    ensures
        r == is_structural(s@),
{
    chars_eq_str(s, "mod.rs") || chars_eq_str(s, "lib.rs") || chars_eq_str(s, "main.rs")
}

/// Validate file catalogs against per-module directory listings.
///
/// `listings[i]` holds the file names actually present in the source
/// directory of `docs[i]`. Every catalog entry whose file is absent from its
/// listing is reported as a ghost; every listed `.rs` file that is neither
/// structural nor declared is reported as an orphan. Modules with empty
/// catalogs are skipped.
#[verifier::loop_isolation(false)]
#[verifier::rlimit(100)]
pub fn validate_file_tables(docs: &Vec<ModuleDoc>, listings: &Vec<Vec<String>>) -> (r:
    ValidationReport)
    requires
        docs@.len() == listings@.len(),
    ensures
        r.ghosts@.map_values(|g: GhostEntry| g@) == ghosts_of(
            docs_view(docs@),
            listings_view(listings@),
        ),
        r.orphans@.map_values(|o: OrphanEntry| o@) == orphans_of(
            docs_view(docs@),
            listings_view(listings@),
        ),
{
    let ghost dv = docs_view(docs@);
    let ghost lv = listings_view(listings@);
    let mut report = ValidationReport::default();
    let mut i: usize = 0;
    proof {
        assert(dv.subrange(0, 0) =~= Seq::<DocV>::empty());
        assert(lv.subrange(0, 0) =~= Seq::<Seq<Seq<char>>>::empty());
        assert(report.ghosts@.map_values(|g: GhostEntry| g@) =~= Seq::<GhostEntryV>::empty());
        assert(report.orphans@.map_values(|o: OrphanEntry| o@) =~= Seq::<OrphanEntryV>::empty());
    }
    while i < docs.len()
        invariant
            i <= docs@.len(),
            report.ghosts@.map_values(|g: GhostEntry| g@) == ghosts_of(
                dv.subrange(0, i as int),
                lv.subrange(0, i as int),
            ),
            report.orphans@.map_values(|o: OrphanEntry| o@) == orphans_of(
                dv.subrange(0, i as int),
                lv.subrange(0, i as int),
            ),
        decreases docs@.len() - i,
    {
        let ghost dpre = dv.subrange(0, i as int);
        let ghost lpre = lv.subrange(0, i as int);
        let ghost dpre1 = dv.subrange(0, i + 1);
        let ghost lpre1 = lv.subrange(0, i + 1);
        proof {
            assert(dv[i as int] == docs@[i as int]@);
            assert(lv[i as int] == listing_view(listings@[i as int]@));
            assert(dpre1.drop_last() =~= dpre);
            assert(lpre1.drop_last() =~= lpre);
            assert(dpre1.last() == dv[i as int]);
            assert(lpre1.last() == lv[i as int]);
        }
        let d = &docs[i];
        if d.files.len() > 0 {
            let sf = str_to_chars(d.source_file.as_str());
            let dirc = dir_of_chars(sf.as_slice());
            let dir_str = chars_to_string(dirc.as_slice());
            let ghost fv = d.files@.map_values(|f: crate::types::FileEntry| f@);
            proof {
                assert(fv == dv[i as int].files);
            }
            let ghost g0 = report.ghosts@.map_values(|g: GhostEntry| g@);
            let mut j: usize = 0;
            proof {
                assert(fv.subrange(0, 0) =~= Seq::<FileV>::empty());
                assert(g0 + ghosts_of_files(
                    fv.subrange(0, 0),
                    lv[i as int],
                    dv[i as int].mod_path,
                    dir_of(dv[i as int].source_file),
                ) =~= g0);
            }
            let ghost orph_frozen = report.orphans@;
            while j < d.files.len()
                invariant
                    report.orphans@ == orph_frozen,
                    j <= d.files@.len(),
                    fv == d.files@.map_values(|f: crate::types::FileEntry| f@),
                    fv.len() == d.files@.len(),
                    dirc@ == dir_of(dv[i as int].source_file),
                    dir_str@ == dirc@,
                    report.ghosts@.map_values(|g: GhostEntry| g@) == g0 + ghosts_of_files(
                        fv.subrange(0, j as int),
                        lv[i as int],
                        dv[i as int].mod_path,
                        dir_of(dv[i as int].source_file),
                    ),
                decreases d.files@.len() - j,
            {
                let ghost fpre = fv.subrange(0, j as int);
                let ghost fpre1 = fv.subrange(0, j + 1);
                proof {
                    assert(fv[j as int] == d.files@[j as int]@);
                    assert(fpre1.drop_last() =~= fpre);
                    assert(fpre1.last() == fv[j as int]);
                }
                let namec = str_to_chars(d.files[j].name.as_str());
                if !name_in_pub(&listings[i], namec.as_slice()) {
                    let entry = GhostEntry {
                        element: d.mod_path.clone(),
                        filename: d.files[j].name.clone(),
                        source_dir: dir_str.clone(),
                    };
                    let ghost gprev = report.ghosts@;
                    report.ghosts.push(entry);
                    proof {
                        assert(report.ghosts@.map_values(|g: GhostEntry| g@) =~= gprev.map_values(
                            |g: GhostEntry| g@,
                        ).push(
                            GhostEntryV {
                                element: dv[i as int].mod_path,
                                filename: fv[j as int].name,
                                source_dir: dir_of(dv[i as int].source_file),
                            },
                        )) by {
                            assert(report.ghosts@ =~= gprev.push(entry));
                        }
                        assert(g0 + ghosts_of_files(
                            fpre1,
                            lv[i as int],
                            dv[i as int].mod_path,
                            dir_of(dv[i as int].source_file),
                        ) =~= report.ghosts@.map_values(|g: GhostEntry| g@));
                    }
                } else {
                    proof {
                        assert(g0 + ghosts_of_files(
                            fpre1,
                            lv[i as int],
                            dv[i as int].mod_path,
                            dir_of(dv[i as int].source_file),
                        ) =~= report.ghosts@.map_values(|g: GhostEntry| g@));
                    }
                }
                j = j + 1;
            }
            proof {
                assert(fv.subrange(0, fv.len() as int) =~= fv);
            }
            let ghost o0 = report.orphans@.map_values(|o: OrphanEntry| o@);
            let mut k: usize = 0;
            proof {
                assert(lv[i as int].subrange(0, 0) =~= Seq::<Seq<char>>::empty());
                assert(o0 + orphans_of_listing(
                    lv[i as int].subrange(0, 0),
                    catalog_names(dv[i as int].files),
                    dv[i as int].mod_path,
                    dir_of(dv[i as int].source_file),
                ) =~= o0);
            }
            let ghost ghosts_frozen = report.ghosts@;
            while k < listings[i].len()
                invariant
                    report.ghosts@ == ghosts_frozen,
                    k <= listings@[i as int]@.len(),
                    lv[i as int].len() == listings@[i as int]@.len(),
                    dirc@ == dir_of(dv[i as int].source_file),
                    dir_str@ == dirc@,
                    fv == d.files@.map_values(|f: crate::types::FileEntry| f@),
                    report.orphans@.map_values(|o: OrphanEntry| o@) == o0 + orphans_of_listing(
                        lv[i as int].subrange(0, k as int),
                        catalog_names(dv[i as int].files),
                        dv[i as int].mod_path,
                        dir_of(dv[i as int].source_file),
                    ),
                decreases listings@[i as int]@.len() - k,
            {
                let ghost opre = lv[i as int].subrange(0, k as int);
                let ghost opre1 = lv[i as int].subrange(0, k + 1);
                proof {
                    assert(lv[i as int][k as int] == listings@[i as int]@[k as int]@);
                    assert(opre1.drop_last() =~= opre);
                    assert(opre1.last() == lv[i as int][k as int]);
                }
                let namec = str_to_chars(listings[i][k].as_str());
                if ends_with_rs_pub(namec.as_slice()) && !is_structural_exec(namec.as_slice())
                    && !catalog_has(&d.files, namec.as_slice()) {
                    let entry = OrphanEntry {
                        element: d.mod_path.clone(),
                        filename: listings[i][k].clone(),
                        source_dir: dir_str.clone(),
                    };
                    let ghost oprev = report.orphans@;
                    report.orphans.push(entry);
                    proof {
                        assert(report.orphans@.map_values(|o: OrphanEntry| o@) =~= oprev.map_values(
                            |o: OrphanEntry| o@,
                        ).push(
                            OrphanEntryV {
                                element: dv[i as int].mod_path,
                                filename: lv[i as int][k as int],
                                source_dir: dir_of(dv[i as int].source_file),
                            },
                        )) by {
                            assert(report.orphans@ =~= oprev.push(entry));
                        }
                        assert(o0 + orphans_of_listing(
                            opre1,
                            catalog_names(dv[i as int].files),
                            dv[i as int].mod_path,
                            dir_of(dv[i as int].source_file),
                        ) =~= report.orphans@.map_values(|o: OrphanEntry| o@));
                    }
                } else {
                    proof {
                        assert(o0 + orphans_of_listing(
                            opre1,
                            catalog_names(dv[i as int].files),
                            dv[i as int].mod_path,
                            dir_of(dv[i as int].source_file),
                        ) =~= report.orphans@.map_values(|o: OrphanEntry| o@));
                    }
                }
                k = k + 1;
            }
            proof {
                assert(lv[i as int].subrange(0, lv[i as int].len() as int) =~= lv[i as int]);
                assert(dpre1.len() == lpre1.len());
                assert(report.ghosts@.map_values(|g: GhostEntry| g@) =~= ghosts_of(dpre1, lpre1));
                assert(report.orphans@.map_values(|o: OrphanEntry| o@) =~= orphans_of(
                    dpre1,
                    lpre1,
                ));
            }
        } else {
            proof {
                assert(dpre1.len() == lpre1.len());
                assert(report.ghosts@.map_values(|g: GhostEntry| g@) =~= ghosts_of(dpre1, lpre1));
                assert(report.orphans@.map_values(|o: OrphanEntry| o@) =~= orphans_of(
                    dpre1,
                    lpre1,
                ));
            }
        }
        i = i + 1;
    }
    proof {
        assert(dv.subrange(0, dv.len() as int) =~= dv);
        assert(lv.subrange(0, lv.len() as int) =~= lv);
    }
    report
}

/// A module whose catalog and listing agree produces no findings: every
/// declared name is on disk, and every non-structural `.rs` file on disk is
/// declared.
pub proof fn lemma_clean_module(d: DocV, listing: Seq<Seq<char>>)
    requires
        forall|j: int|
            0 <= j < d.files.len() ==> name_in(listing, #[trigger] d.files[j].name),
        forall|k: int|
            0 <= k < listing.len() ==> (ends_with(#[trigger] listing[k], ".rs"@) && !is_structural(
                listing[k],
            ) ==> name_in(catalog_names(d.files), listing[k])),
    ensures
        ghosts_of_files(d.files, listing, d.mod_path, dir_of(d.source_file)) == Seq::<
            GhostEntryV,
        >::empty(),
        orphans_of_listing(
            listing,
            catalog_names(d.files),
            d.mod_path,
            dir_of(d.source_file),
        ) == Seq::<OrphanEntryV>::empty(),
{
    lemma_ghosts_empty(d.files, listing, d.mod_path, dir_of(d.source_file));
    lemma_orphans_empty(listing, catalog_names(d.files), d.mod_path, dir_of(d.source_file));
}

proof fn lemma_ghosts_empty(
    files: Seq<FileV>,
    listing: Seq<Seq<char>>,
    elem: Seq<char>,
    dir: Seq<char>,
)
    requires
        forall|j: int| 0 <= j < files.len() ==> name_in(listing, #[trigger] files[j].name),
    ensures
        ghosts_of_files(files, listing, elem, dir) == Seq::<GhostEntryV>::empty(),
    decreases files.len(),
{
    if files.len() > 0 {
        lemma_ghosts_empty(files.drop_last(), listing, elem, dir);
        assert(files.last() == files[files.len() - 1]);
        assert(ghosts_of_files(files, listing, elem, dir) =~= Seq::<GhostEntryV>::empty());
    }
}

proof fn lemma_orphans_empty(
    listing: Seq<Seq<char>>,
    catalog: Seq<Seq<char>>,
    elem: Seq<char>,
    dir: Seq<char>,
)
    requires
        forall|k: int|
            0 <= k < listing.len() ==> (ends_with(#[trigger] listing[k], ".rs"@) && !is_structural(
                listing[k],
            ) ==> name_in(catalog, listing[k])),
    ensures
        orphans_of_listing(listing, catalog, elem, dir) == Seq::<OrphanEntryV>::empty(),
    decreases listing.len(),
{
    if listing.len() > 0 {
        lemma_orphans_empty(listing.drop_last(), catalog, elem, dir);
        assert(listing.last() == listing[listing.len() - 1]);
        assert(orphans_of_listing(listing, catalog, elem, dir) =~= Seq::<OrphanEntryV>::empty());
    }
}

/// A declared name that is absent from the listing is always reported: the
/// ghost list of that catalog is non-empty.
pub proof fn lemma_ghost_reported(
    files: Seq<FileV>,
    listing: Seq<Seq<char>>,
    elem: Seq<char>,
    dir: Seq<char>,
    j: int,
)
    requires
        0 <= j < files.len(),
        !name_in(listing, files[j].name),
    ensures
        ghosts_of_files(files, listing, elem, dir).len() > 0,
    decreases files.len(),
{
    if j == files.len() - 1 {
        assert(files.last() == files[j]);
    } else {
        lemma_ghost_reported(files.drop_last(), listing, elem, dir, j);
    }
}

/// Format a validation report as human-readable text.
#[verifier::loop_isolation(false)]
#[verifier::rlimit(100)]
pub fn format_validation_report(report: &ValidationReport) -> (r: String)
    ensures
        r@ == validation_text(
            report.ghosts@.map_values(|g: GhostEntry| g@),
            report.orphans@.map_values(|o: OrphanEntry| o@),
        ),
{
    let ghost gv = report.ghosts@.map_values(|g: GhostEntry| g@);
    let ghost ov = report.orphans@.map_values(|o: OrphanEntry| o@);
    let mut out = String::new();
    if report.is_clean() {
        out.append("File validation: all clear\n");
        proof {
            assert(out@ =~= validation_text(gv, ov));
        }
        return out;
    }
    if report.ghosts.len() > 0 {
        out.append("Ghost entries (");
        push_dec(&mut out, report.ghosts.len());
        out.append(" found):\n");
        let ghost base = out@;
        let mut i: usize = 0;
        proof {
            assert(gv.subrange(0, 0) =~= Seq::<GhostEntryV>::empty());
            assert(out@ =~= base + ghost_lines(gv.subrange(0, 0)));
        }
        while i < report.ghosts.len()
            invariant
                i <= report.ghosts@.len(),
                gv.len() == report.ghosts@.len(),
                out@ == base + ghost_lines(gv.subrange(0, i as int)),
            decreases report.ghosts@.len() - i,
        {
            proof {
                assert(gv[i as int] == report.ghosts@[i as int]@);
                assert(gv.subrange(0, i + 1).drop_last() =~= gv.subrange(0, i as int));
                assert(gv.subrange(0, i + 1).last() == gv[i as int]);
            }
            out.append("  ");
            out.append(report.ghosts[i].element.as_str());
            out.append(" \u{2014} '");
            out.append(report.ghosts[i].filename.as_str());
            out.append("' listed in catalog but not found on disk\n");
            proof {
                assert(out@ =~= base + ghost_lines(gv.subrange(0, i + 1)));
            }
            i = i + 1;
        }
        proof {
            assert(gv.subrange(0, gv.len() as int) =~= gv);
        }
    }
    let ghost mid = out@;
    if report.orphans.len() > 0 {
        out.append("Orphan files (");
        push_dec(&mut out, report.orphans.len());
        out.append(" found):\n");
        let ghost base = out@;
        let mut i: usize = 0;
        proof {
            assert(ov.subrange(0, 0) =~= Seq::<OrphanEntryV>::empty());
            assert(out@ =~= base + orphan_lines(ov.subrange(0, 0)));
        }
        while i < report.orphans.len()
            invariant
                i <= report.orphans@.len(),
                ov.len() == report.orphans@.len(),
                out@ == base + orphan_lines(ov.subrange(0, i as int)),
            decreases report.orphans@.len() - i,
        {
            proof {
                assert(ov[i as int] == report.orphans@[i as int]@);
                assert(ov.subrange(0, i + 1).drop_last() =~= ov.subrange(0, i as int));
                assert(ov.subrange(0, i + 1).last() == ov[i as int]);
            }
            out.append("  ");
            out.append(report.orphans[i].element.as_str());
            out.append(" \u{2014} '");
            out.append(report.orphans[i].filename.as_str());
            out.append("' exists on disk but not in catalog\n");
            proof {
                assert(out@ =~= base + orphan_lines(ov.subrange(0, i + 1)));
            }
            i = i + 1;
        }
        proof {
            assert(ov.subrange(0, ov.len() as int) =~= ov);
        }
    }
    proof {
        assert(out@ =~= validation_text(gv, ov));
    }
    out
}

/// One rendered line per ghost.
pub open spec fn ghost_lines(gs: Seq<GhostEntryV>) -> Seq<char>
    decreases gs.len(),
{
    if gs.len() == 0 {
        Seq::empty()
    } else {
        ghost_lines(gs.drop_last()) + "  "@ + gs.last().element + " \u{2014} '"@
            + gs.last().filename + "' listed in catalog but not found on disk\n"@
    }
}

/// One rendered line per orphan.
pub open spec fn orphan_lines(os: Seq<OrphanEntryV>) -> Seq<char>
    decreases os.len(),
{
    if os.len() == 0 {
        Seq::empty()
    } else {
        orphan_lines(os.drop_last()) + "  "@ + os.last().element + " \u{2014} '"@
            + os.last().filename + "' exists on disk but not in catalog\n"@
    }
}

/// The whole validation report, rendered.
pub open spec fn validation_text(gs: Seq<GhostEntryV>, os: Seq<OrphanEntryV>) -> Seq<char> {
    if gs.len() == 0 && os.len() == 0 {
        "File validation: all clear\n"@
    } else {
        (if gs.len() > 0 {
            "Ghost entries ("@ + dec_of(gs.len()) + " found):\n"@ + ghost_lines(gs)
        } else {
            Seq::<char>::empty()
        }) + (if os.len() > 0 {
            "Orphan files ("@ + dec_of(os.len()) + " found):\n"@ + orphan_lines(os)
        } else {
            Seq::<char>::empty()
        })
    }
}

} // verus!
