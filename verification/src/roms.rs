use crate::state::Rom;
use vstd::prelude::*;

verus! {

/// An entry of a directory, as the platform reports it.
#[derive(Clone, Debug)]
pub struct FileEntry {
    /// The full path.
    pub path: String,
    /// The last component of the path.
    pub file_name: String,
    /// The file name without its extension.
    pub stem: String,
    /// The extension of the file name, without the dot, if it has one.
    pub extension: Option<String>,
    /// Whether the entry is a regular file.
    pub is_file: bool,
}

/// `a` comes before `b`, or is `b`, in the order of texts: character by
/// character by code point, a prefix before what it is a prefix of.
pub open spec fn text_le(a: Seq<char>, b: Seq<char>) -> bool
    decreases a.len(),
{
    if a.len() == 0 {
        true
    } else if b.len() == 0 {
        false
    } else if a[0] != b[0] {
        a[0] < b[0]
    } else {
        text_le(a.drop_first(), b.drop_first())
    }
}

pub proof fn lemma_text_le_total(a: Seq<char>, b: Seq<char>)
    ensures
        text_le(a, b) || text_le(b, a),
    decreases a.len(),
{
    if a.len() > 0 && b.len() > 0 && a[0] == b[0] {
        lemma_text_le_total(a.drop_first(), b.drop_first());
    }
}

pub proof fn lemma_text_le_transitive(a: Seq<char>, b: Seq<char>, c: Seq<char>)
    requires
        text_le(a, b),
        text_le(b, c),
    ensures
        text_le(a, c),
    decreases a.len(),
{
    if a.len() > 0 && b.len() > 0 && c.len() > 0 && a[0] == b[0] && b[0] == c[0] {
        lemma_text_le_transitive(a.drop_first(), b.drop_first(), c.drop_first());
    }
}

/// Whether `a` comes before `b`, or is `b`, in the order of texts.
pub fn precedes(a: &str, b: &str) -> (r: bool)
    ensures
        r == text_le(a@, b@),
{
    let n = a.unicode_len();
    let m = b.unicode_len();
    let mut i: usize = 0;
    proof {
        assert(a@.subrange(0, n as int) =~= a@);
        assert(b@.subrange(0, m as int) =~= b@);
    }
    while i < n && i < m
        invariant
            i <= n,
            i <= m,
            n == a@.len(),
            m == b@.len(),
            text_le(a@, b@) == text_le(a@.subrange(i as int, n as int), b@.subrange(i as int, m as int)),
        decreases n - i,
    {
        let x = a.get_char(i);
        let y = b.get_char(i);
        proof {
            let ra = a@.subrange(i as int, n as int);
            let rb = b@.subrange(i as int, m as int);
            assert(ra[0] == x && rb[0] == y);
            assert(ra.drop_first() =~= a@.subrange(i + 1, n as int));
            assert(rb.drop_first() =~= b@.subrange(i + 1, m as int));
        }
        if x != y {
            return x < y;
        }
        i += 1;
    }
    i == n
}

/// Whether `wanted` is one of `texts`.
pub open spec fn holds_text(texts: Seq<String>, wanted: Seq<char>) -> bool {
    exists|i: int| 0 <= i < texts.len() && (#[trigger] texts[i])@ == wanted
}

/// The entry is a ROM: a regular file with one of the extensions and a name that is not excluded.
pub open spec fn is_rom(entry: FileEntry, extensions: Seq<String>, exclude: Seq<String>) -> bool {
    &&& entry.is_file
    &&& entry.extension matches Some(extension) && holds_text(extensions, extension@)
    &&& !holds_text(exclude, entry.file_name@)
}

/// A ROM as contracts see it.
pub struct RomView {
    pub path: Seq<char>,
    pub name: Seq<char>,
    pub file_name: Seq<char>,
}

impl View for Rom {
    type V = RomView;

    open spec fn view(&self) -> RomView {
        RomView { path: self.path@, name: self.name@, file_name: self.file_name@ }
    }
}

pub open spec fn rom_of(entry: FileEntry) -> RomView {
    RomView { path: entry.path@, name: entry.stem@, file_name: entry.file_name@ }
}

/// Where `rom` goes into `sorted`: behind every ROM that comes before it or has its name.
pub open spec fn insert_point(sorted: Seq<RomView>, rom: RomView, from: int) -> int
    decreases sorted.len() - from,
{
    if from < 0 || from >= sorted.len() || !text_le(sorted[from].name, rom.name) {
        from
    } else {
        insert_point(sorted, rom, from + 1)
    }
}

/// The ROMs among the first `upto` entries, ordered by name; ROMs of one
/// name stay in the order of the entries.
pub open spec fn selected(
    entries: Seq<FileEntry>,
    extensions: Seq<String>,
    exclude: Seq<String>,
    upto: int,
) -> Seq<RomView>
    decreases upto,
{
    if upto <= 0 || upto > entries.len() {
        Seq::empty()
    } else {
        let before = selected(entries, extensions, exclude, upto - 1);
        if is_rom(entries[upto - 1], extensions, exclude) {
            let rom = rom_of(entries[upto - 1]);
            before.insert(insert_point(before, rom, 0), rom)
        } else {
            before
        }
    }
}

/// The sequence is ordered by name.
pub open spec fn ordered(roms: Seq<RomView>) -> bool {
    forall|i: int, j: int| 0 <= i <= j < roms.len() ==> text_le(roms[i].name, roms[j].name)
}

proof fn lemma_insert_point(sorted: Seq<RomView>, rom: RomView, from: int)
    requires
        ordered(sorted),
        0 <= from <= sorted.len(),
        forall|i: int| 0 <= i < from ==> text_le(sorted[i].name, rom.name),
    ensures
        from <= insert_point(sorted, rom, from) <= sorted.len(),
        forall|i: int|
            0 <= i < insert_point(sorted, rom, from) ==> text_le(sorted[i].name, rom.name),
        forall|i: int|
            insert_point(sorted, rom, from) <= i < sorted.len() ==> text_le(rom.name, sorted[i].name),
    decreases sorted.len() - from,
{
    if from < sorted.len() && text_le(sorted[from].name, rom.name) {
        lemma_insert_point(sorted, rom, from + 1);
    } else if from < sorted.len() {
        assert forall|i: int| from <= i < sorted.len() implies text_le(rom.name, sorted[i].name) by {
            lemma_text_le_total(sorted[from].name, rom.name);
            assert(text_le(sorted[from].name, sorted[i].name));
            lemma_text_le_transitive(rom.name, sorted[from].name, sorted[i].name);
        }
    }
}

/// What is selected is ordered by name, holds nothing but ROMs of the
/// entries, and holds each ROM of the entries.
pub proof fn lemma_selected(
    entries: Seq<FileEntry>,
    extensions: Seq<String>,
    exclude: Seq<String>,
    upto: int,
)
    requires
        0 <= upto <= entries.len(),
    ensures
        ordered(selected(entries, extensions, exclude, upto)),
        selected(entries, extensions, exclude, upto).len() <= upto,
        forall|i: int|
            0 <= i < upto && is_rom(entries[i], extensions, exclude) ==> selected(
                entries,
                extensions,
                exclude,
                upto,
            ).contains(#[trigger] rom_of(entries[i])),
        forall|j: int|
            0 <= j < selected(entries, extensions, exclude, upto).len() ==> exists|i: int|
                0 <= i < upto && is_rom(entries[i], extensions, exclude) && rom_of(entries[i])
                    == #[trigger] selected(entries, extensions, exclude, upto)[j],
    decreases upto,
{
    if upto > 0 {
        lemma_selected(entries, extensions, exclude, upto - 1);
        let before = selected(entries, extensions, exclude, upto - 1);
        let after = selected(entries, extensions, exclude, upto);
        if is_rom(entries[upto - 1], extensions, exclude) {
            let rom = rom_of(entries[upto - 1]);
            lemma_insert_point(before, rom, 0);
            let p = insert_point(before, rom, 0);
            assert(after == before.insert(p, rom));
            assert forall|i: int, j: int| 0 <= i <= j < after.len() implies text_le(
                after[i].name,
                after[j].name,
            ) by {
                let bi = if i < p {
                    i
                } else {
                    i - 1
                };
                let bj = if j < p {
                    j
                } else {
                    j - 1
                };
                if i == p && j == p {
                    lemma_text_le_total(rom.name, rom.name);
                } else if i != p && j != p {
                    assert(after[i] == before[bi] && after[j] == before[bj]);
                } else if i == p {
                    assert(after[j] == before[bj]);
                } else {
                    assert(after[i] == before[bi]);
                }
            }
            assert forall|i: int| 0 <= i < upto && is_rom(entries[i], extensions, exclude) implies after.contains(
                #[trigger] rom_of(entries[i]),
            ) by {
                if i == upto - 1 {
                    assert(after[p] == rom);
                } else {
                    let k = choose|k: int| 0 <= k < before.len() && before[k] == rom_of(entries[i]);
                    let k2 = if k < p {
                        k
                    } else {
                        k + 1
                    };
                    assert(after[k2] == before[k]);
                }
            }
            assert forall|j: int| 0 <= j < after.len() implies exists|i: int|
                0 <= i < upto && is_rom(entries[i], extensions, exclude) && rom_of(entries[i])
                    == #[trigger] after[j] by {
                if j == p {
                    assert(rom_of(entries[upto - 1]) == after[j]);
                } else {
                    let bj = if j < p {
                        j
                    } else {
                        j - 1
                    };
                    assert(after[j] == before[bj]);
                    let i = choose|i: int|
                        0 <= i < upto - 1 && is_rom(entries[i], extensions, exclude) && rom_of(
                            entries[i],
                        ) == before[bj];
                    assert(rom_of(entries[i]) == after[j]);
                }
            }
        } else {
            assert(after == before);
            assert forall|j: int| 0 <= j < after.len() implies exists|i: int|
                0 <= i < upto && is_rom(entries[i], extensions, exclude) && rom_of(entries[i])
                    == #[trigger] after[j] by {
                let i = choose|i: int|
                    0 <= i < upto - 1 && is_rom(entries[i], extensions, exclude) && rom_of(
                        entries[i],
                    ) == before[j];
                assert(rom_of(entries[i]) == after[j]);
            }
        }
    }
}

/// The ROMs as contracts see them.
pub open spec fn roms_view(roms: Seq<Rom>) -> Seq<RomView> {
    Seq::new(roms.len(), |i: int| roms[i]@)
}

fn contains_text(texts: &Vec<String>, wanted: &str) -> (r: bool)
    ensures
        r == holds_text(texts@, wanted@),
{
    let needle = wanted.to_owned();
    let mut i: usize = 0;
    while i < texts.len()
        invariant
            i <= texts@.len(),
            needle@ == wanted@,
            forall|j: int| 0 <= j < i ==> texts@[j]@ != wanted@,
        decreases texts@.len() - i,
    {
        if texts[i] == needle {
            assert(texts@[i as int]@ == wanted@);
            return true;
        }
        i += 1;
    }
    false
}

fn qualifies(entry: &FileEntry, extensions: &Vec<String>, exclude: &Vec<String>) -> (r: bool)
    ensures
        r == is_rom(*entry, extensions@, exclude@),
{
    if !entry.is_file {
        return false;
    }
    match &entry.extension {
        Some(extension) => contains_text(extensions, extension.as_str()) && !contains_text(
            exclude,
            entry.file_name.as_str(),
        ),
        None => false,
    }
}

fn find_insert_point(roms: &Vec<Rom>, name: &str) -> (r: usize)
    ensures
        r <= roms@.len(),
        forall|rom: RomView| rom.name == name@ ==> r == insert_point(roms_view(roms@), rom, 0),
{
    let mut at: usize = 0;
    while at < roms.len() && precedes(roms[at].name.as_str(), name)
        invariant
            at <= roms@.len(),
            forall|rom: RomView|
                rom.name == name@ ==> insert_point(roms_view(roms@), rom, at as int)
                    == insert_point(roms_view(roms@), rom, 0),
        decreases roms@.len() - at,
    {
        at += 1;
    }
    at
}

/// The ROMs among the entries of a directory: the regular files with
/// one of the extensions whose name is not excluded, ordered by name.
/// A listing that failed is handed on with its reason.
pub fn get_roms(
    listing: Result<Vec<FileEntry>, String>,
    extensions: &Vec<String>,
    exclude: &Vec<String>,
) -> (r: Result<Vec<Rom>, String>)
    ensures
        match listing {
            Ok(entries) => r is Ok && roms_view(r->Ok_0@) == selected(
                entries@,
                extensions@,
                exclude@,
                entries@.len() as int,
            ),
            Err(reason) => r == Err::<Vec<Rom>, String>(reason),
        },
{
    let entries = match listing {
        Ok(entries) => entries,
        Err(reason) => {
            return Err(reason);
        },
    };
    let mut roms: Vec<Rom> = Vec::new();
    let mut i: usize = 0;
    assert(roms_view(roms@) =~= selected(entries@, extensions@, exclude@, 0));
    while i < entries.len()
        invariant
            i <= entries@.len(),
            roms_view(roms@) == selected(entries@, extensions@, exclude@, i as int),
        decreases entries@.len() - i,
    {
        let entry = &entries[i];
        if qualifies(entry, extensions, exclude) {
            let at = find_insert_point(&roms, entry.stem.as_str());
            let rom = Rom {
                path: entry.path.clone(),
                name: entry.stem.clone(),
                file_name: entry.file_name.clone(),
            };
            let ghost before = roms_view(roms@);
            assert(rom@ == rom_of(*entry));
            roms.insert(at, rom);
            assert(roms_view(roms@) =~= before.insert(at as int, rom_of(*entry)));
        }
        i += 1;
    }
    Ok(roms)
}

} // verus!
