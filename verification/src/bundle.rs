use vstd::prelude::*;

use crate::digits::{dec_val, is_dec_digits};
use crate::errors::ConvertError;
use vstd::multiset::Multiset;

verus! {

/// ASCII code of `.`, the extension separator.
pub const DOT: u8 = 0x2e;

/// Holds when `name` begins with the four bytes `tile`.
pub open spec fn starts_with_tile(name: Seq<u8>) -> bool {
    &&& name.len() >= 4
    &&& name[0] == 0x74u8
    &&& name[1] == 0x69u8
    &&& name[2] == 0x6cu8
    &&& name[3] == 0x65u8
}

/// Holds when `name` ends with the four bytes `json`.
pub open spec fn ends_with_json(name: Seq<u8>) -> bool {
    &&& name.len() >= 4
    &&& name[name.len() - 4] == 0x6au8
    &&& name[name.len() - 3] == 0x73u8
    &&& name[name.len() - 2] == 0x6fu8
    &&& name[name.len() - 1] == 0x6eu8
}

/// The position of the first `.` in `name`, or `name.len()` when there is
/// none.
pub open spec fn dot_pos(name: Seq<u8>) -> int
    decreases name.len(),
{
    if name.len() == 0 {
        0
    } else if name[0] == DOT {
        0
    } else {
        1 + dot_pos(name.drop_first())
    }
}

/// What characterizes [`dot_pos`]: it is in range, nothing before it is a
/// dot, and it points at a dot unless there is none.
pub proof fn lemma_dot_pos(name: Seq<u8>)
    ensures
        0 <= dot_pos(name) <= name.len(),
        forall|k: int| 0 <= k < dot_pos(name) ==> name[k] != DOT,
        dot_pos(name) < name.len() ==> name[dot_pos(name)] == DOT,
    decreases name.len(),
{
    if name.len() > 0 && name[0] != DOT {
        lemma_dot_pos(name.drop_first());
        assert forall|k: int| 0 <= k < dot_pos(name) implies name[k] != DOT by {
            if k > 0 {
                assert(name.drop_first()[k - 1] == name[k]);
            }
        }
        if dot_pos(name) < name.len() {
            assert(name.drop_first()[dot_pos(name) - 1] == name[dot_pos(name)]);
        }
    }
}

/// The decimal value carried between the `tile` prefix and the extension
/// dot of a tile entry name.
pub open spec fn tile_num(name: Seq<u8>) -> int {
    dec_val(name.subrange(4, dot_pos(name)))
}

/// Holds when a `tile`-prefixed entry name carries a well-formed number:
/// a non-empty run of digits between the prefix and the first dot, whose
/// value fits an unsigned 64-bit integer.
pub open spec fn tile_name_ok(name: Seq<u8>) -> bool {
    &&& 4 <= dot_pos(name)
    &&& is_dec_digits(name.subrange(4, dot_pos(name)))
    &&& tile_num(name) <= u64::MAX
}

/// The selection a name list induces: each `tile`-prefixed name paired
/// with its number, other names dropped, order kept.
pub open spec fn tile_entry_fn() -> spec_fn(Seq<u8>) -> Option<(u64, Seq<u8>)> {
    |n: Seq<u8>| if starts_with_tile(n) {
        Some((tile_num(n) as u64, n))
    } else {
        None
    }
}

/// One tile entry of the archive: its name and the number the name
/// carries, which fixes the tile's cell in the atlas.
#[derive(Debug, PartialEq)]
pub struct TileEntry {
    /// The number between the `tile` prefix and the extension dot.
    pub number: u64,
    /// The full entry name.
    pub name: Vec<u8>,
}

impl View for TileEntry {
    type V = (u64, Seq<u8>);

    open spec fn view(&self) -> (u64, Seq<u8>) {
        (self.number, self.name@)
    }
}

/// Holds when the entries carry non-decreasing numbers.
pub open spec fn entries_sorted(s: Seq<TileEntry>) -> bool {
    forall|i: int, j: int| 0 <= i < j < s.len() ==> (#[trigger] s[i]).number <= (#[trigger] s[j]).number
}

/// Selects the `tile`-prefixed names.
pub open spec fn tile_name_pred() -> spec_fn(Seq<u8>) -> bool {
    |n: Seq<u8>| starts_with_tile(n)
}

/// Holds when every `tile`-prefixed name of the multiset carries a
/// well-formed number.
pub open spec fn tile_names_ok(ns: Multiset<Seq<u8>>) -> bool {
    forall|name: Seq<u8>|
        ns.count(name) > 0 && #[trigger] starts_with_tile(name) ==> tile_name_ok(name)
}

/// The `tile`-prefixed names of the multiset: the entries that fill the
/// atlas.
pub open spec fn tile_names_of(ns: Multiset<Seq<u8>>) -> Multiset<Seq<u8>> {
    ns.filter(tile_name_pred())
}

/// Filtering a sequence and filtering the elements it holds agree.
pub proof fn lemma_filter_to_multiset<A>(s: Seq<A>, pred: spec_fn(A) -> bool)
    ensures
        s.filter(pred).to_multiset() == s.to_multiset().filter(pred),
    decreases s.len(),
{
    broadcast use vstd::seq_lib::group_to_multiset_ensures;
    broadcast use vstd::multiset::group_multiset_axioms;

    reveal(Seq::filter);
    if s.len() == 0 {
        assert(s.filter(pred) =~= s);
        assert(s.to_multiset().len() == 0);
        assert(s.filter(pred).to_multiset() =~= s.to_multiset().filter(pred));
    } else {
        let rest = s.drop_last();
        let x = s.last();
        lemma_filter_to_multiset(rest, pred);
        assert(rest.push(x) =~= s);
        assert(rest.push(x).to_multiset() =~= rest.to_multiset().insert(x));
        if pred(x) {
            assert(s.filter(pred) == rest.filter(pred).push(x));
            assert(rest.filter(pred).push(x).to_multiset() =~= rest.filter(
                pred,
            ).to_multiset().insert(x));
            assert(s.filter(pred).to_multiset() =~= s.to_multiset().filter(pred));
        } else {
            assert(s.filter(pred) == rest.filter(pred));
            assert(s.filter(pred).to_multiset() =~= s.to_multiset().filter(pred));
        }
    }
}

/// The names of the selected tile entries, in order, are exactly the
/// `tile`-prefixed names, in order.
pub proof fn lemma_tile_names_projection(names: Seq<Seq<u8>>)
    ensures
        names.filter_map(tile_entry_fn()).map_values(|p: (u64, Seq<u8>)| p.1) == names.filter(
            tile_name_pred(),
        ),
    decreases names.len(),
{
    reveal(Seq::filter);
    let f = tile_entry_fn();
    let proj = |p: (u64, Seq<u8>)| p.1;
    if names.len() == 0 {
        assert(names.filter_map(f).map_values(proj) =~= names.filter(tile_name_pred()));
    } else {
        let rest = names.drop_last();
        let x = names.last();
        lemma_tile_names_projection(rest);
        if starts_with_tile(x) {
            assert(names.filter_map(f) == rest.filter_map(f) + seq![(tile_num(x) as u64, x)]);
            assert(names.filter(tile_name_pred()) == rest.filter(tile_name_pred()).push(x));
            assert(names.filter_map(f).map_values(proj) =~= rest.filter_map(f).map_values(
                proj,
            ).push(x));
            assert(names.filter_map(f).map_values(proj) =~= names.filter(tile_name_pred()));
        } else {
            assert(names.filter_map(f) == rest.filter_map(f));
            assert(names.filter(tile_name_pred()) == rest.filter(tile_name_pred()));
            assert(names.filter_map(f).map_values(proj) =~= names.filter(tile_name_pred()));
        }
    }
}

/// The multiset form of a name list carries a well-formed tile number on
/// every `tile`-prefixed name exactly when the list does.
pub proof fn lemma_tile_names_ok_list(names: Seq<Seq<u8>>)
    ensures
        tile_names_ok(names.to_multiset()) <==> (forall|k: int|
            0 <= k < names.len() ==> (starts_with_tile(#[trigger] names[k]) ==> tile_name_ok(
                names[k],
            ))),
{
    broadcast use vstd::seq_lib::group_to_multiset_ensures;

    if tile_names_ok(names.to_multiset()) {
        assert forall|k: int|
            0 <= k < names.len() && starts_with_tile(#[trigger] names[k]) implies tile_name_ok(
            names[k],
        ) by {
            assert(names.contains(names[k]));
            assert(names.to_multiset().count(names[k]) > 0);
        }
    }
    if forall|k: int|
        0 <= k < names.len() ==> (starts_with_tile(#[trigger] names[k]) ==> tile_name_ok(
            names[k],
        )) {
        assert forall|name: Seq<u8>|
            names.to_multiset().count(name) > 0 && #[trigger] starts_with_tile(name)
            implies tile_name_ok(name) by {
            assert(names.contains(name));
            let j = choose|j: int| 0 <= j < names.len() && names[j] == name;
            assert(starts_with_tile(names[j]));
        }
    }
}

/// What reading entry `name` of the archive held in `bundle` yields: the
/// decompressed bytes, or nothing when the archive, the entry, or its
/// content cannot be read. Both the outcome and the bytes are a function
/// of those two values alone.
pub uninterp spec fn zip_entry_of(bundle: Seq<u8>, name: Seq<u8>) -> Option<Seq<u8>>;

/// Which entry names the archive held in `bundle` lists, as a multiset,
/// or nothing when the bytes are not a readable archive. Readability and
/// the names are a function of the bytes alone, while the order the names
/// come out in is not.
pub uninterp spec fn zip_names_of(bundle: Seq<u8>) -> Option<Multiset<Seq<u8>>>;

/// Relies on `zip::ZipArchive::new` and `zip::ZipArchive::file_names`:
/// lists the entry names of the archive the bytes hold, or nothing when
/// the bytes are not a readable archive. The crate hands the names out in
/// no fixed order, so only whether the archive is readable and which
/// names come out, `zip_names_of` the bytes, is promised.
#[verifier::external_body]
pub(crate) fn zip_entry_names(bundle: &Vec<u8>) -> (r: Option<Vec<Vec<u8>>>)
    ensures
        (r is Some) <==> zip_names_of(bundle@) is Some,
        r matches Some(ns) ==> Some(ns@.map_values(|n: Vec<u8>| n@).to_multiset())
            == zip_names_of(bundle@),
{
    let reader = std::io::Cursor::new(bundle.as_slice());
    let archive = zip::ZipArchive::new(reader).ok()?;
    Some(archive.file_names().map(|n| n.as_bytes().to_vec()).collect())
}

/// Relies on `zip::ZipArchive::by_name_decrypt` (with an empty password,
/// so that an entry carrying a stray cipher marker comes back as a value
/// instead of stopping the program) and `std::io::Read::read_to_end`:
/// returns the decompressed bytes of the named entry. The outcome and the
/// bytes are `zip_entry_of` the archive and the name.
#[verifier::external_body]
pub(crate) fn zip_read_entry(bundle: &Vec<u8>, name: &Vec<u8>) -> (r: Option<Vec<u8>>)
    ensures
        (r is Some) <==> zip_entry_of(bundle@, name@) is Some,
        r matches Some(b) ==> Some(b@) == zip_entry_of(bundle@, name@),
{
    let reader = std::io::Cursor::new(bundle.as_slice());
    let mut archive = zip::ZipArchive::new(reader).ok()?;
    let name = std::str::from_utf8(name).ok()?;
    let mut file = archive.by_name_decrypt(name, b"").ok()?.ok()?;
    let mut out = Vec::new();
    std::io::Read::read_to_end(&mut file, &mut out).ok()?;
    Some(out)
}

/// Returns the position of the first name that ends in `json`, if any.
pub fn find_json_entry(names: &Vec<Vec<u8>>) -> (r: Option<usize>)
    ensures
        r matches Some(i) ==> i < names@.len() && ends_with_json(names@[i as int]@) && forall|
            k: int,
        | 0 <= k < i ==> !ends_with_json((#[trigger] names@[k])@),
        r is None ==> forall|k: int| 0 <= k < names@.len() ==> !ends_with_json((#[trigger] names@[k])@),
{
    let n = names.len();
    let mut i: usize = 0;
    while i < n
        invariant
            0 <= i <= n,
            n == names@.len(),
            forall|k: int| 0 <= k < i ==> !ends_with_json((#[trigger] names@[k])@),
        decreases n - i,
    {
        let name = &names[i];
        let len = name.len();
        if len >= 4 && name[len - 4] == 0x6au8 && name[len - 3] == 0x73u8 && name[len - 2]
            == 0x6fu8 && name[len - 1] == 0x6eu8 {
            return Some(i);
        }
        i = i + 1;
    }
    None
}

/// Returns the raw bytes of the manifest: the content of an entry whose
/// name ends in `json`. The archive must be readable and hold such an
/// entry, and that entry must be readable too; which json-suffixed entry
/// is taken follows the archive's listing order.
pub fn get_pyxel_json_map(bundle: &Vec<u8>) -> (r: Result<Vec<u8>, ConvertError>)
    ensures
        zip_names_of(bundle@) is None ==> r == Err::<Vec<u8>, ConvertError>(
            ConvertError::ArchiveInvalid,
        ),
        zip_names_of(bundle@) matches Some(ns) ==> {
            &&& (r == Err::<Vec<u8>, ConvertError>(ConvertError::ArchiveInvalid)
                ==> exists|name: Seq<u8>|
                #[trigger] ends_with_json(name) && ns.count(name) > 0 && zip_entry_of(
                    bundle@,
                    name,
                ) is None)
            &&& ((forall|name: Seq<u8>| ns.count(name) > 0 ==> !ends_with_json(name)) <==> r
                == Err::<Vec<u8>, ConvertError>(ConvertError::ManifestMissing))
            &&& ((exists|name: Seq<u8>| #[trigger] ends_with_json(name) && ns.count(name) > 0)
                && (forall|name: Seq<u8>|
                ns.count(name) > 0 && #[trigger] ends_with_json(name) ==> zip_entry_of(
                    bundle@,
                    name,
                ) is Some) ==> r is Ok)
            &&& (r matches Ok(b) ==> exists|name: Seq<u8>|
                #[trigger] ends_with_json(name) && ns.count(name) > 0 && Some(b@)
                    == zip_entry_of(bundle@, name))
        },
{
    broadcast use vstd::seq_lib::group_to_multiset_ensures;

    let names = match zip_entry_names(bundle) {
        None => {
            return Err(ConvertError::ArchiveInvalid);
        },
        Some(n) => n,
    };
    let ghost mapped = names@.map_values(|n: Vec<u8>| n@);
    let ghost ns = zip_names_of(bundle@)->Some_0;
    let idx = match find_json_entry(&names) {
        None => {
            proof {
                assert forall|name: Seq<u8>| ns.count(name) > 0 implies !ends_with_json(
                    name,
                ) by {
                    assert(mapped.to_multiset().count(name) > 0);
                    assert(mapped.contains(name));
                    let j = choose|j: int| 0 <= j < mapped.len() && mapped[j] == name;
                    assert(!ends_with_json(names@[j]@));
                }
            }
            return Err(ConvertError::ManifestMissing);
        },
        Some(i) => i,
    };
    let ghost witness = names@[idx as int]@;
    proof {
        assert(mapped[idx as int] == witness);
        assert(mapped.contains(witness));
        assert(ns.count(witness) > 0);
    }
    match zip_read_entry(bundle, &names[idx]) {
        None => {
            proof {
                assert(ends_with_json(witness) && ns.count(witness) > 0);
                assert(zip_entry_of(bundle@, witness) is None);
            }
            Err(ConvertError::ArchiveInvalid)
        },
        Some(b) => {
            proof {
                assert(ends_with_json(witness) && ns.count(witness) > 0 && Some(b@)
                    == zip_entry_of(bundle@, witness));
            }
            Ok(b)
        },
    }
}

/// Returns a copy of the bytes.
fn copy_bytes(src: &Vec<u8>) -> (r: Vec<u8>)
    ensures
        r@ == src@,
{
    let mut out: Vec<u8> = Vec::new();
    let n = src.len();
    let mut i: usize = 0;
    while i < n
        invariant
            0 <= i <= n,
            n == src@.len(),
            out@ =~= src@.subrange(0, i as int),
        decreases n - i,
    {
        out.push(src[i]);
        i = i + 1;
    }
    proof {
        assert(out@ =~= src@);
    }
    out
}

/// Returns the position of the first `.` of the name, or its length.
fn find_dot(name: &Vec<u8>) -> (r: usize)
    ensures
        r == dot_pos(name@),
{
    let n = name.len();
    let mut i: usize = 0;
    while i < n
        invariant
            0 <= i <= n,
            n == name@.len(),
            forall|k: int| 0 <= k < i ==> name@[k] != DOT,
        decreases n - i,
    {
        if name[i] == DOT {
            proof {
                lemma_dot_pos(name@);
                if dot_pos(name@) < i {
                    assert(name@[dot_pos(name@)] == DOT);
                }
                if dot_pos(name@) > i {
                    assert(name@[i as int] != DOT);
                }
            }
            return i;
        }
        i = i + 1;
    }
    proof {
        lemma_dot_pos(name@);
        if dot_pos(name@) < n {
            assert(name@[dot_pos(name@)] == DOT);
        }
    }
    n
}

/// Appending an element to a sequence extends its selection by the
/// element's image, when the element is selected at all.
proof fn lemma_filter_map_push<A, B>(s: Seq<A>, f: spec_fn(A) -> Option<B>, x: A)
    ensures
        s.push(x).filter_map(f) == (match f(x) {
            Some(b) => s.filter_map(f).push(b),
            None => s.filter_map(f),
        }),
{
    assert(s.push(x).drop_last() =~= s);
    assert(s.push(x).last() == x);
    match f(x) {
        Some(b) => {
            assert(s.push(x).filter_map(f) =~= s.filter_map(f) + seq![b]);
            assert(s.filter_map(f) + seq![b] =~= s.filter_map(f).push(b));
        },
        None => {
            assert(s.push(x).filter_map(f) =~= s.filter_map(f));
        },
    }
}

/// Collects the `tile`-prefixed entry names with their numbers, in the
/// order given. The first `tile`-prefixed name without a well-formed
/// number aborts the collection.
pub fn collect_tile_entries(names: &Vec<Vec<u8>>) -> (r: Result<Vec<TileEntry>, ConvertError>)
    ensures
        (r is Ok) <==> (forall|k: int|
            0 <= k < names@.len() ==> (starts_with_tile((#[trigger] names@[k])@)
                ==> tile_name_ok(names@[k]@))),
        r matches Ok(v) ==> v@.map_values(|e: TileEntry| e@) == names@.map_values(
            |n: Vec<u8>| n@,
        ).filter_map(tile_entry_fn()),
        r matches Ok(v) ==> forall|k: int|
            0 <= k < v@.len() ==> {
                let e = #[trigger] v@[k];
                &&& starts_with_tile(e.name@)
                &&& tile_name_ok(e.name@)
                &&& e.number == tile_num(e.name@)
                &&& exists|j: int| 0 <= j < names@.len() && (#[trigger] names@[j])@ == e.name@
            },
        r matches Err(e) ==> e == ConvertError::TileNameMalformed,
{
    let mut out: Vec<TileEntry> = Vec::new();
    let n = names.len();
    let ghost f = tile_entry_fn();
    let mut i: usize = 0;
    while i < n
        invariant
            0 <= i <= n,
            n == names@.len(),
            f == tile_entry_fn(),
            forall|k: int|
                0 <= k < i ==> (starts_with_tile((#[trigger] names@[k])@) ==> tile_name_ok(
                    names@[k]@,
                )),
            out@.map_values(|e: TileEntry| e@) == names@.subrange(0, i as int).map_values(
                |n2: Vec<u8>| n2@,
            ).filter_map(f),
            forall|k: int|
                0 <= k < out@.len() ==> {
                    let e = #[trigger] out@[k];
                    &&& starts_with_tile(e.name@)
                    &&& tile_name_ok(e.name@)
                    &&& e.number == tile_num(e.name@)
                    &&& exists|j: int| 0 <= j < names@.len() && (#[trigger] names@[j])@ == e.name@
                },
        decreases n - i,
    {
        let name = &names[i];
        let ghost nv = name@;
        let is_tile = name.len() >= 4 && name[0] == 0x74u8 && name[1] == 0x69u8 && name[2]
            == 0x6cu8 && name[3] == 0x65u8;
        if is_tile {
            let d = find_dot(name);
            proof {
                lemma_dot_pos(nv);
                if dot_pos(nv) < 4 {
                    assert(nv[dot_pos(nv)] == DOT);
                }
            }
            let parsed = crate::digits::parse_dec_range(name, 4, d);
            let number: u64 = match parsed {
                None => {
                    return Err(ConvertError::TileNameMalformed);
                },
                Some(v) => v,
            };
            proof {
                assert(starts_with_tile(nv) && tile_name_ok(nv) && number == tile_num(nv));
            }
            out.push(TileEntry { number, name: copy_bytes(name) });
            proof {
                assert((#[trigger] names@[i as int])@ == nv);
            }
        }
        proof {
            let prefix = names@.subrange(0, i as int).map_values(|n2: Vec<u8>| n2@);
            let prefix1 = names@.subrange(0, i + 1).map_values(|n2: Vec<u8>| n2@);
            assert(prefix1 =~= prefix.push(nv)) by {
                assert(names@.subrange(0, i + 1) =~= names@.subrange(0, i as int).push(
                    names@[i as int],
                ));
            }
            lemma_filter_map_push(prefix, f, nv);
            assert(out@.map_values(|e: TileEntry| e@) =~= prefix1.filter_map(f));
        }
        i = i + 1;
    }
    proof {
        assert(names@.subrange(0, n as int) =~= names@);
    }
    Ok(out)
}

/// Two sequences that hold the same elements keep holding the same
/// elements after mapping each one through the same function.
proof fn lemma_map_values_multiset<A, B>(a: Seq<A>, b: Seq<A>, f: spec_fn(A) -> B)
    requires
        a.to_multiset() == b.to_multiset(),
    ensures
        a.map_values(f).to_multiset() == b.map_values(f).to_multiset(),
    decreases a.len(),
{
    broadcast use vstd::seq_lib::group_to_multiset_ensures;
    broadcast use vstd::multiset::group_multiset_axioms;

    if a.len() == 0 {
        assert(a.to_multiset().len() == 0);
        assert(b.to_multiset().len() == 0);
        assert(b.len() == 0);
        assert(a.map_values(f) =~= Seq::<B>::empty());
        assert(b.map_values(f) =~= Seq::<B>::empty());
        assert(a.map_values(f).to_multiset() =~= b.map_values(f).to_multiset());
    } else {
        let x = a.last();
        assert(a =~= a.drop_last().push(x));
        assert(a.to_multiset().count(x) > 0);
        assert(b.to_multiset().count(x) > 0);
        assert(b.contains(x));
        let j = choose|j: int| 0 <= j < b.len() && b[j] == x;
        assert(a.drop_last().to_multiset() =~= a.to_multiset().remove(x)) by {
            assert(a.drop_last() =~= a.remove(a.len() - 1));
        }
        assert(b.remove(j).to_multiset() =~= b.to_multiset().remove(x));
        lemma_map_values_multiset(a.drop_last(), b.remove(j), f);
        assert(a.map_values(f) =~= a.drop_last().map_values(f).push(f(x)));
        assert(b.map_values(f).remove(j) =~= b.remove(j).map_values(f));
        assert(b.map_values(f).remove(j).to_multiset() =~= b.map_values(f).to_multiset().remove(
            f(x),
        )) by {
            assert(b.map_values(f)[j] == f(x));
        }
        assert(a.map_values(f).to_multiset() =~= a.drop_last().map_values(f).to_multiset().insert(
            f(x),
        ));
        assert(b.map_values(f).to_multiset().count(f(x)) > 0) by {
            assert(b.map_values(f)[j] == f(x));
            assert(b.map_values(f).contains(f(x)));
        }
        assert(a.map_values(f).to_multiset() =~= b.map_values(f).to_multiset());
    }
}

/// Sorts tile entries by their numbers, keeping exactly the given
/// entries. Entries with equal numbers keep no particular order.
fn sort_tile_entries(entries: Vec<TileEntry>) -> (r: Vec<TileEntry>)
    ensures
        entries_sorted(r@),
        r@.to_multiset() == entries@.to_multiset(),
        forall|k: int| 0 <= k < r@.len() ==> entries@.contains(#[trigger] r@[k]),
{
    broadcast use vstd::seq_lib::group_to_multiset_ensures;
    broadcast use vstd::seq_lib::to_multiset_insert;
    broadcast use vstd::multiset::group_multiset_axioms;

    let mut out: Vec<TileEntry> = Vec::new();
    let mut rest = entries;
    let ghost total = entries@.to_multiset();
    while rest.len() > 0
        invariant
            entries_sorted(out@),
            out@.to_multiset().add(rest@.to_multiset()) == total,
        decreases rest@.len(),
    {
        let ghost rest0 = rest@;
        let e = rest.pop().unwrap();
        proof {
            assert(rest0 =~= rest@.push(e));
            rest@.to_multiset_ensures();
            assert(rest0.to_multiset() =~= rest@.to_multiset().insert(e));
        }
        let mut p: usize = 0;
        while p < out.len() && out[p].number <= e.number
            invariant
                0 <= p <= out@.len(),
                forall|k: int| 0 <= k < p ==> (#[trigger] out@[k]).number <= e.number,
            decreases out@.len() - p,
        {
            p = p + 1;
        }
        let ghost out0 = out@;
        let ghost pp = p as int;
        out.insert(p, e);
        proof {
            assert(out@ =~= out0.insert(pp, e));
            assert(entries_sorted(out@)) by {
                assert forall|x: int, y: int|
                    0 <= x < y < out@.len() implies (#[trigger] out@[x]).number
                    <= (#[trigger] out@[y]).number by {
                    if y < pp {
                        assert(out@[x] == out0[x] && out@[y] == out0[y]);
                    } else if y == pp {
                        if x < pp {
                            assert(out@[x] == out0[x]);
                        }
                    } else {
                        assert(out@[y] == out0[y - 1]);
                        if x < pp {
                            assert(out@[x] == out0[x]);
                            if pp < out0.len() {
                                assert(out0[pp].number > e.number || out0[x].number
                                    <= e.number);
                            }
                            assert(out0[x].number <= out0[y - 1].number);
                        } else if x == pp {
                            assert(pp < out0.len());
                            assert(out0[pp].number > e.number);
                            if pp < y - 1 {
                                assert(out0[pp].number <= out0[y - 1].number);
                            }
                        } else {
                            assert(out@[x] == out0[x - 1]);
                            assert(out0[x - 1].number <= out0[y - 1].number);
                        }
                    }
                }
            }
            vstd::seq_lib::to_multiset_insert(out0, pp, e);
            assert(out@.to_multiset() =~= out0.to_multiset().insert(e));
            assert(out@.to_multiset().add(rest@.to_multiset()) =~= total);
        }
    }
    proof {
        assert(rest@ =~= Seq::<TileEntry>::empty());
        assert(rest@.to_multiset().len() == 0);
        assert(out@.to_multiset() =~= total);
        assert forall|k: int| 0 <= k < out@.len() implies entries@.contains(
            #[trigger] out@[k],
        ) by {
            assert(out@.contains(out@[k]));
            assert(out@.to_multiset().count(out@[k]) > 0);
            assert(entries@.to_multiset().count(out@[k]) > 0);
        }
    }
    out
}

/// Collects the `tile`-prefixed entries of the name list and sorts them
/// by their numbers: the order in which the tiles fill the atlas. The
/// first `tile`-prefixed name without a well-formed number aborts with a
/// fault instead.
pub fn sorted_tile_entries(names: &Vec<Vec<u8>>) -> (r: Result<Vec<TileEntry>, ConvertError>)
    ensures
        (r is Ok) <==> tile_names_ok(names@.map_values(|n: Vec<u8>| n@).to_multiset()),
        r matches Ok(v) ==> {
            &&& entries_sorted(v@)
            &&& v@.map_values(|e: TileEntry| e.name@).to_multiset() == tile_names_of(
                names@.map_values(|n: Vec<u8>| n@).to_multiset(),
            )
            &&& forall|k: int|
                0 <= k < v@.len() ==> {
                    let e = #[trigger] v@[k];
                    &&& starts_with_tile(e.name@)
                    &&& tile_name_ok(e.name@)
                    &&& e.number == tile_num(e.name@)
                }
        },
        r matches Err(e) ==> e == ConvertError::TileNameMalformed,
{
    proof {
        let mapped = names@.map_values(|n: Vec<u8>| n@);
        lemma_tile_names_ok_list(mapped);
        if forall|k: int|
            0 <= k < mapped.len() ==> (starts_with_tile(#[trigger] mapped[k]) ==> tile_name_ok(
                mapped[k],
            )) {
            assert forall|k: int|
                0 <= k < names@.len() && starts_with_tile(
                    (#[trigger] names@[k])@,
                ) implies tile_name_ok(names@[k]@) by {
                assert(mapped[k] == names@[k]@);
            }
        }
        if forall|k: int|
            0 <= k < names@.len() ==> (starts_with_tile((#[trigger] names@[k])@)
                ==> tile_name_ok(names@[k]@)) {
            assert forall|k: int|
                0 <= k < mapped.len() && starts_with_tile(#[trigger] mapped[k])
                implies tile_name_ok(mapped[k]) by {
                assert(mapped[k] == names@[k]@);
            }
        }
    }
    let collected = match collect_tile_entries(names) {
        Err(e) => {
            return Err(e);
        },
        Ok(v) => v,
    };
    let ghost cv = collected@;
    let sorted = sort_tile_entries(collected);
    proof {
        let mapped = names@.map_values(|n: Vec<u8>| n@);
        lemma_map_values_multiset(sorted@, cv, |e: TileEntry| e.name@);
        lemma_tile_names_projection(mapped);
        lemma_filter_to_multiset(mapped, tile_name_pred());
        assert(cv.map_values(|e: TileEntry| e.name@) =~= cv.map_values(
            |e: TileEntry| e@,
        ).map_values(|p: (u64, Seq<u8>)| p.1));
        lemma_map_values_multiset(
            cv.map_values(|e: TileEntry| e@),
            mapped.filter_map(tile_entry_fn()),
            |p: (u64, Seq<u8>)| p.1,
        );
        assert forall|k: int| 0 <= k < sorted@.len() implies {
            let e = #[trigger] sorted@[k];
            &&& starts_with_tile(e.name@)
            &&& tile_name_ok(e.name@)
            &&& e.number == tile_num(e.name@)
        } by {
            assert(cv.contains(sorted@[k]));
            let j = choose|j: int| 0 <= j < cv.len() && cv[j] == sorted@[k];
            assert(starts_with_tile((#[trigger] cv[j]).name@));
        }
    }
    Ok(sorted)
}

} // verus!
