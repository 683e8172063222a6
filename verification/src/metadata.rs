//! What the pool records in its metadata file.

use vstd::prelude::*;

use crate::encoding::{lemma_metadata_bytes_len, lemma_metadata_bytes_unique, metadata_bytes};
use crate::error::PoolError;
use crate::name_table::{
    entries_map, lemma_entries_map_dom, lemma_entries_map_len, lemma_entries_map_value,
    names_differ, texts, NameTable,
};

verus! {

/// The name of the file that holds the metadata.
pub const METADATA_FILENAME: &'static str = "metadata.bincode";

/// The number of empty files that are made at a time.
pub const EMPTY_FILES: usize = 6;

/// The backing files of a pool, and which of them hold which file.
#[derive(Debug)]
pub struct GlobalMetadata {
    /// The version of the record.
    pub version: i32,
    /// The names of the backing files that hold no file.
    pub empty_files: Vec<String>,
    /// From the path of each file to the name of its backing file.
    pub files: NameTable<String>,
}

/// What a metadata record says.
#[verifier::ext_equal]
pub struct MetadataView {
    pub version: i32,
    pub empty_files: Seq<Seq<char>>,
    pub files: Map<Seq<char>, Seq<char>>,
}

impl MetadataView {
    /// No backing file stands behind two paths, none that stands behind a
    /// path is listed as empty, and none is listed twice.
    pub open spec fn exclusive(self) -> bool {
        let files = self.files;
        let empty = self.empty_files;
        &&& empty.no_duplicates()
        &&& forall|p: Seq<char>, q: Seq<char>|
            #![trigger files.dom().contains(p), files.dom().contains(q)]
            files.dom().contains(p) && files.dom().contains(q) && p != q ==> files[p] != files[q]
        &&& forall|p: Seq<char>| #[trigger]
            files.dom().contains(p) ==> !empty.contains(files[p])
    }
}

/// The record of a pool that has no file yet.
pub open spec fn initial_metadata() -> MetadataView {
    MetadataView { version: 1, empty_files: Seq::empty(), files: Map::empty() }
}

/// The characters of the names and the values of a list of entries.
pub open spec fn entry_texts(entries: Seq<(Seq<char>, String)>) -> Seq<(Seq<char>, Seq<char>)> {
    entries.map_values(|e: (Seq<char>, String)| (e.0, e.1@))
}

/// The characters of each of a list of pairs of strings.
pub open spec fn pair_texts(pairs: Seq<(String, String)>) -> Seq<(Seq<char>, Seq<char>)> {
    pairs.map_values(|e: (String, String)| (e.0@, e.1@))
}

impl View for GlobalMetadata {
    type V = MetadataView;

    open spec fn view(&self) -> MetadataView {
        MetadataView {
            version: self.version,
            empty_files: texts(self.empty_files@),
            files: self.files@.map_values(|s: String| s@),
        }
    }
}

/// Whether `bytes`, the content of a metadata file, record `view`. An empty
/// file records that there is no file yet; any other records the metadata
/// whose encoding it begins with.
pub open spec fn records(bytes: Seq<u8>, view: MetadataView) -> bool {
    if bytes.len() == 0 {
        view == initial_metadata()
    } else {
        exists|pairs: Seq<(Seq<char>, Seq<char>)>|
            {
                &&& #[trigger] metadata_bytes(view.version, view.empty_files, pairs).is_prefix_of(
                    bytes,
                )
                &&& view.files == entries_map(pairs)
            }
    }
}

/// Whether `names` lists the backing files of a record: those of the files,
/// one for each file, and then the empty ones.
pub open spec fn lists_backing_files(names: Seq<Seq<char>>, view: MetadataView) -> bool {
    exists|pairs: Seq<(Seq<char>, Seq<char>)>|
        {
            &&& names_differ(pairs)
            &&& #[trigger] entries_map(pairs) == view.files
            &&& names == backing_names(pairs) + view.empty_files
        }
}

/// The second of each of a list of pairs.
pub open spec fn backing_names(pairs: Seq<(Seq<char>, Seq<char>)>) -> Seq<Seq<char>> {
    pairs.map_values(|p: (Seq<char>, Seq<char>)| p.1)
}

/// To read the values of a table's entries as text is to read the values of
/// its map as text.
proof fn lemma_entry_texts_map(entries: Seq<(Seq<char>, String)>)
    ensures
        entries_map(entry_texts(entries)) == entries_map(entries).map_values(|s: String| s@),
    decreases entries.len(),
{
    if entries.len() > 0 {
        lemma_entry_texts_map(entries.drop_last());
        assert(entry_texts(entries).drop_last() =~= entry_texts(entries.drop_last()));
        assert(entry_texts(entries).last() == (entries.last().0, entries.last().1@));
    }
    assert(entries_map(entry_texts(entries)) =~= entries_map(entries).map_values(
        |s: String| s@,
    ));
}

/// The encoding of a metadata record, with any bytes behind it, records that
/// and nothing else.
proof fn lemma_record_reads_back(
    version: i32,
    empty_files: Seq<Seq<char>>,
    pairs: Seq<(Seq<char>, Seq<char>)>,
    trailing: Seq<u8>,
    view: MetadataView,
)
    requires
        metadata_bytes(version, empty_files, pairs).len() + trailing.len() <= u64::MAX,
    ensures
        records(metadata_bytes(version, empty_files, pairs) + trailing, view) <==> view
            == (MetadataView { version, empty_files, files: entries_map(pairs) }),
{
    let bytes = metadata_bytes(version, empty_files, pairs) + trailing;
    lemma_metadata_bytes_len(version, empty_files, pairs);
    assert(metadata_bytes(version, empty_files, pairs).is_prefix_of(bytes));
    if records(bytes, view) {
        let found = choose|p: Seq<(Seq<char>, Seq<char>)>|
            {
                &&& #[trigger] metadata_bytes(view.version, view.empty_files, p).is_prefix_of(bytes)
                &&& view.files == entries_map(p)
            };
        lemma_metadata_bytes_unique(
            bytes,
            version,
            empty_files,
            pairs,
            view.version,
            view.empty_files,
            found,
        );
    }
    if view == (MetadataView { version, empty_files, files: entries_map(pairs) }) {
        assert(metadata_bytes(view.version, view.empty_files, pairs).is_prefix_of(bytes));
    }
}

/// Calls `bincode::serialize` on the version, the empty files and the pairs
/// of paths and backing names, as one tuple. Claims the bytes that bincode
/// makes of it: fixed-width little-endian numbers, each list and each string
/// behind its length, nothing around a tuple. With no size limit set and a
/// vector to write into, the call has no way to fail.
#[verifier::external_body]
fn bincode_serialize(
    version: i32,
    empty_files: &Vec<String>,
    files: &Vec<(String, String)>,
) -> (bytes: Vec<u8>)
    ensures
        bytes@ == metadata_bytes(version, texts(empty_files@), pair_texts(files@)),
{
    bincode::serialize(&(version, empty_files, files)).unwrap()
}

/// The text in which `bincode::deserialize` says why it does not take `bytes`
/// for a tuple of the version, the empty files and the pairs of paths and
/// backing names, on a machine whose `usize` has `width` bits.
pub uninterp spec fn refusal_text(bytes: Seq<u8>, width: int) -> Seq<char>;

/// Calls `bincode::deserialize` for a tuple of the version, the empty files
/// and the pairs of paths and backing names, and `to_string` on its failure.
/// Claims that it succeeds on the bytes that begin with the encoding of such a
/// tuple and gives that tuple (it leaves bytes behind it unread), and fails on
/// all others, with a text that depends on the bytes and on how wide a `usize`
/// is, and on nothing else.
#[verifier::external_body]
fn bincode_deserialize(bytes: &[u8]) -> (read: Result<
    (i32, Vec<String>, Vec<(String, String)>),
    String,
>)
    ensures
        match read {
            Ok(r) => metadata_bytes(r.0, texts(r.1@), pair_texts(r.2@)).is_prefix_of(bytes@),
            Err(text) => {
                &&& text@ == refusal_text(bytes@, usize::BITS as int)
                &&& forall|
                    version: i32,
                    empty_files: Seq<Seq<char>>,
                    files: Seq<(Seq<char>, Seq<char>)>,
                |
                    !(#[trigger] metadata_bytes(version, empty_files, files)).is_prefix_of(bytes@)
            },
        },
{
    match bincode::deserialize(bytes) {
        Ok(read) => Ok(read),
        Err(error) => Err(error.to_string()),
    }
}

impl GlobalMetadata {
    /// No name occurs twice in the table of files.
    pub open spec fn wf(self) -> bool {
        self.files.wf()
    }

    /// The bytes that record this metadata.
    pub open spec fn bytes(self) -> Seq<u8> {
        metadata_bytes(self.version, texts(self.empty_files@), entry_texts(self.files.entries()))
    }

    /// The record of a pool that has no file yet.
    pub fn new() -> (metadata: Self)
        ensures
            metadata.wf(),
            metadata@ == initial_metadata(),
    {
        let metadata = GlobalMetadata {
            version: 1,
            empty_files: Vec::new(),
            files: NameTable::new(),
        };
        assert(metadata@ =~= initial_metadata());
        metadata
    }

    /// The names of the backing files: those of the files, then the empty
    /// ones.
    pub fn backing_files(&self) -> (names: Vec<String>)
        requires
            self.wf(),
        ensures
            lists_backing_files(texts(names@), self@),
    {
        let ghost pairs = entry_texts(self.files.entries());
        let mut names: Vec<String> = Vec::new();
        let mut i: usize = 0;
        while i < self.files.len()
            invariant
                pairs == entry_texts(self.files.entries()),
                i <= pairs.len(),
                texts(names@) == backing_names(pairs.take(i as int)),
            decreases pairs.len() - i,
        {
            let ghost before = texts(names@);
            names.push(self.files.value_at(i).clone());
            assert(texts(names@) =~= before.push(pairs[i as int].1));
            assert(backing_names(pairs.take(i + 1)) =~= backing_names(pairs.take(i as int)).push(
                pairs[i as int].1,
            ));
            i += 1;
        }
        assert(pairs.take(i as int) =~= pairs);
        let mut k: usize = 0;
        while k < self.empty_files.len()
            invariant
                k <= self.empty_files.len(),
                texts(names@) == backing_names(pairs) + texts(self.empty_files@).take(k as int),
            decreases self.empty_files.len() - k,
        {
            let ghost before = texts(names@);
            names.push(self.empty_files[k].clone());
            assert(texts(names@) =~= before.push(self.empty_files@[k as int]@));
            assert(texts(self.empty_files@).take(k + 1) =~= texts(self.empty_files@).take(
                k as int,
            ).push(self.empty_files@[k as int]@));
            k += 1;
        }
        proof {
            assert(texts(self.empty_files@).take(k as int) =~= texts(self.empty_files@));
            lemma_entry_texts_map(self.files.entries());
            assert(names_differ(pairs)) by {
                let entries = self.files.entries();
                assert forall|a: int, b: int| 0 <= a < b < pairs.len() implies (
                #[trigger] pairs[a]).0 != (#[trigger] pairs[b]).0 by {
                    assert(entries[a].0 != entries[b].0);
                }
            }
            assert(entries_map(pairs) == self@.files);
        }
        names
    }

    /// The record in bytes.
    pub fn encode(&self) -> (bytes: Vec<u8>)
        ensures
            bytes@ == self.bytes(),
    {
        let list = self.files.as_list();
        assert(pair_texts(list@) =~= entry_texts(self.files.entries())) by {
            let pairs = list@.map_values(|e: (String, String)| (e.0@, e.1));
            assert(pairs == self.files.entries());
            assert forall|i: int| 0 <= i < list@.len() implies pair_texts(list@)[i]
                == entry_texts(pairs)[i] by {}
        }
        bincode_serialize(self.version, &self.empty_files, list)
    }

    /// What the content of a metadata file records.
    pub fn decode(bytes: &[u8]) -> (read: Result<GlobalMetadata, PoolError>)
        ensures
            match read {
                Ok(metadata) => {
                    &&& metadata.wf()
                    &&& records(bytes@, metadata@)
                    &&& bytes@.len() > 0 ==> exists|pairs: Seq<(Seq<char>, Seq<char>)>|
                        #[trigger] metadata_bytes(
                            metadata@.version,
                            metadata@.empty_files,
                            pairs,
                        ).is_prefix_of(bytes@)
                },
                Err(error) => {
                    &&& error is Decode
                    &&& error->0@ == refusal_text(bytes@, usize::BITS as int)
                    &&& forall|view: MetadataView| !records(bytes@, view)
                },
            },
    {
        if bytes.len() == 0 {
            return Ok(GlobalMetadata::new());
        }
        match bincode_deserialize(bytes) {
            Ok((version, empty_files, pairs)) => {
                let ghost list = pairs@;
                let metadata = GlobalMetadata {
                    version,
                    empty_files,
                    files: NameTable::from_entries(pairs),
                };
                proof {
                    let entries = list.map_values(|e: (String, String)| (e.0@, e.1));
                    lemma_entry_texts_map(entries);
                    assert(entry_texts(entries) =~= pair_texts(list));
                    assert(metadata_bytes(
                        metadata@.version,
                        metadata@.empty_files,
                        pair_texts(list),
                    ).is_prefix_of(bytes@));
                }
                Ok(metadata)
            },
            Err(text) => Err(PoolError::Decode(text)),
        }
    }
}

/// A list of the backing files of a record holds that of each file, and each
/// empty one.
pub proof fn lemma_lists_backing_files(names: Seq<Seq<char>>, view: MetadataView)
    requires
        lists_backing_files(names, view),
    ensures
        forall|path: Seq<char>| #[trigger]
            view.files.dom().contains(path) ==> names.contains(view.files[path]),
        forall|i: int|
            0 <= i < view.empty_files.len() ==> names.contains(#[trigger] view.empty_files[i]),
{
    let pairs = choose|pairs: Seq<(Seq<char>, Seq<char>)>|
        {
            &&& names_differ(pairs)
            &&& #[trigger] entries_map(pairs) == view.files
            &&& names == backing_names(pairs) + view.empty_files
        };
    assert forall|path: Seq<char>| #[trigger] view.files.dom().contains(path) implies names.contains(
        view.files[path],
    ) by {
        lemma_entries_map_dom(pairs, path);
        let i = choose|i: int| 0 <= i < pairs.len() && (#[trigger] pairs[i]).0 == path;
        lemma_entries_map_value(pairs, i);
        assert(names[i] == view.files[path]);
    }
    assert forall|i: int| 0 <= i < view.empty_files.len() implies names.contains(
        #[trigger] view.empty_files[i],
    ) by {
        assert(names[pairs.len() + i] == view.empty_files[i]);
    }
}

/// The bytes of a metadata file record one metadata at most.
pub proof fn law_bytes_record_one_metadata(bytes: Seq<u8>, a: MetadataView, b: MetadataView)
    requires
        bytes.len() <= u64::MAX,
        records(bytes, a),
        records(bytes, b),
    ensures
        a == b,
{
    if bytes.len() > 0 {
        let p = choose|p: Seq<(Seq<char>, Seq<char>)>|
            {
                &&& #[trigger] metadata_bytes(a.version, a.empty_files, p).is_prefix_of(bytes)
                &&& a.files == entries_map(p)
            };
        let q = choose|q: Seq<(Seq<char>, Seq<char>)>|
            {
                &&& #[trigger] metadata_bytes(b.version, b.empty_files, q).is_prefix_of(bytes)
                &&& b.files == entries_map(q)
            };
        lemma_metadata_bytes_unique(
            bytes,
            a.version,
            a.empty_files,
            p,
            b.version,
            b.empty_files,
            q,
        );
    }
}

/// What `encode` writes, `decode` reads back, whatever bytes stand behind it
/// in the file.
pub proof fn law_decode_of_encode(metadata: GlobalMetadata, trailing: Seq<u8>, view: MetadataView)
    requires
        metadata.bytes().len() + trailing.len() <= u64::MAX,
    ensures
        records(metadata.bytes() + trailing, view) <==> view == metadata@,
{
    lemma_entry_texts_map(metadata.files.entries());
    lemma_record_reads_back(
        metadata.version,
        texts(metadata.empty_files@),
        entry_texts(metadata.files.entries()),
        trailing,
        view,
    );
}

/// The names that are opened for a record are the backing files of its files,
/// one for each, in whatever order, and behind them the empty files in theirs;
/// there is no other.
pub proof fn law_backing_files_then_empty_files(
    names: Seq<Seq<char>>,
    view: MetadataView,
    name: Seq<char>,
)
    requires
        lists_backing_files(names, view),
    ensures
        view.files.dom().finite(),
        names.len() == view.files.dom().len() + view.empty_files.len(),
        names.skip(names.len() - view.empty_files.len()) == view.empty_files,
        names.contains(name) <==> view.empty_files.contains(name) || exists|path: Seq<char>|
            #[trigger] view.files.dom().contains(path) && view.files[path] == name,
{
    let pairs = choose|pairs: Seq<(Seq<char>, Seq<char>)>|
        {
            &&& names_differ(pairs)
            &&& #[trigger] entries_map(pairs) == view.files
            &&& names == backing_names(pairs) + view.empty_files
        };
    lemma_entries_map_len(pairs);
    assert(names.skip(names.len() - view.empty_files.len()) =~= view.empty_files);
    lemma_lists_backing_files(names, view);
    if names.contains(name) {
        let i = choose|i: int| 0 <= i < names.len() && names[i] == name;
        if i < pairs.len() {
            lemma_entries_map_value(pairs, i);
            assert(view.files.dom().contains(pairs[i].0));
        } else {
            assert(view.empty_files[i - pairs.len()] == name);
        }
    }
    if view.empty_files.contains(name) {
        let i = choose|i: int| 0 <= i < view.empty_files.len() && view.empty_files[i] == name;
        assert(names.contains(view.empty_files[i]));
    }
}

/// An empty metadata file records that there is no file yet, in version 1, and
/// nothing else; the files of any other record are those that its pairs say.
pub proof fn law_empty_file_records_no_files(view: MetadataView)
    ensures
        records(Seq::<u8>::empty(), view) <==> {
            &&& view.version == 1
            &&& view.empty_files == Seq::<Seq<char>>::empty()
            &&& view.files == Map::<Seq<char>, Seq<char>>::empty()
        },
{
    if view.version == 1 && view.empty_files == Seq::<Seq<char>>::empty() && view.files == Map::<
        Seq<char>,
        Seq<char>,
    >::empty() {
        assert(view =~= initial_metadata());
    }
}

/// What a record in memory says is what it is made of.
pub proof fn law_records_say_what_they_are(metadata: GlobalMetadata, path: Seq<char>, i: int)
    ensures
        metadata@.version == metadata.version,
        metadata@.empty_files.len() == metadata.empty_files@.len(),
        0 <= i < metadata.empty_files@.len() ==> metadata@.empty_files[i]
            == metadata.empty_files@[i]@,
        metadata@.files.dom().contains(path) == metadata.files@.dom().contains(path),
        metadata.files@.dom().contains(path) ==> metadata@.files[path]
            == metadata.files@[path]@,
{
}

/// Bytes that are not empty and begin with the encoding of no metadata record
/// nothing: a file that has been damaged is not taken for an empty one.
pub proof fn law_damaged_bytes_record_nothing(bytes: Seq<u8>, view: MetadataView)
    requires
        bytes.len() > 0,
        forall|version: i32, empty_files: Seq<Seq<char>>, pairs: Seq<(Seq<char>, Seq<char>)>|
            !(#[trigger] metadata_bytes(version, empty_files, pairs)).is_prefix_of(bytes),
    ensures
        !records(bytes, view),
{
}

/// Bytes that begin with the encoding of metadata record that, whatever follows:
/// of two pairs of one path the later counts.
pub proof fn law_encoded_bytes_record_their_metadata(
    bytes: Seq<u8>,
    version: i32,
    empty_files: Seq<Seq<char>>,
    pairs: Seq<(Seq<char>, Seq<char>)>,
    view: MetadataView,
)
    requires
        bytes.len() <= u64::MAX,
        metadata_bytes(version, empty_files, pairs).is_prefix_of(bytes),
    ensures
        records(bytes, view) <==> {
            &&& view.version == version
            &&& view.empty_files == empty_files
            &&& view.files == entries_map(pairs)
        },
{
    let head = metadata_bytes(version, empty_files, pairs);
    let trailing = bytes.skip(head.len() as int);
    assert(bytes =~= head + trailing);
    lemma_record_reads_back(version, empty_files, pairs, trailing, view);
}

} // verus!
