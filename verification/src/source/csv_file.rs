use vstd::prelude::*;
use vstd::string::StringExecFns;
use crate::text::{copy_strings, decimal, decimal_string, find_text, places, position, texts};

verus! {

/// The places in `headers` of the attributes that stand there, in the order of the
/// attributes. An attribute that no header names has no place.
pub open spec fn found_indices(attributes: Seq<Seq<char>>, headers: Seq<Seq<char>>) -> Seq<int>
    decreases attributes.len(),
{
    if attributes.len() == 0 {
        Seq::empty()
    } else {
        let before = found_indices(attributes.drop_last(), headers);
        match position(headers, attributes.last()) {
            Some(i) => before.push(i),
            None => before,
        }
    }
}

/// What a source is at some moment: the file it reads, the attributes asked of it, its
/// identifier, and the columns to pass on once the header has been read.
pub struct SourceView {
    pub path: Seq<char>,
    pub attributes: Seq<Seq<char>>,
    pub id: Seq<char>,
    pub indices: Seq<int>,
}

/// The source that reads the rows of a CSV file.
pub struct CSVFileSource {
    file_path: String,
    attributes: Vec<String>,
    node_id: String,
    attribute_indices: Vec<usize>,
}

/// The values of a record at the given places.
pub open spec fn picked(record: Seq<Seq<char>>, indices: Seq<int>) -> Seq<Seq<char>> {
    Seq::new(indices.len(), |i: int| record[indices[i]])
}

impl CSVFileSource {
    pub closed spec fn view(&self) -> SourceView {
        SourceView {
            path: self.file_path@,
            attributes: texts(self.attributes@),
            id: self.node_id@,
            indices: places(self.attribute_indices@),
        }
    }

    /// A source for the file at `file_path` that passes on the given attributes, or none
    /// where none are given.
    pub fn new(file_path: String, attributes: &Option<Vec<String>>, node_id: &usize) -> (r: Self)
        ensures
            r@ == (SourceView {
                path: file_path@,
                attributes: match *attributes {
                    Some(a) => texts(a@),
                    None => Seq::empty(),
                },
                id: decimal(*node_id as nat),
                indices: Seq::empty(),
            }),
    {
        let attributes_vec: Vec<String> = match attributes {
            Some(attr) => copy_strings(attr.as_slice()),
            None => Vec::new(),
        };
        let r = CSVFileSource {
            file_path,
            attributes: attributes_vec,
            node_id: decimal_string(*node_id),
            attribute_indices: Vec::new(),
        };
        assert(r@.indices =~= Seq::empty());
        assert(attributes is None ==> r@.attributes =~= Seq::empty());
        r
    }

    /// The path of the file to read.
    pub fn file_path(&self) -> (r: &String)
        ensures
            r@ == self@.path,
    {
        &self.file_path
    }

    /// The status with which the source ends when its file cannot be opened.
    pub fn open_failure(&self, reason: &str) -> (r: (u8, String))
        ensures
            r.0 == 1,
            r.1@ == "Cannot open "@ + self@.path + ": "@ + reason@,
    {
        let mut msg = String::from_str("Cannot open ");
        msg.append(self.file_path.as_str());
        msg.append(": ");
        msg.append(reason);
        (1, msg)
    }

    /// Takes the first record of the file, the names of its columns, and finds the place
    /// of each attribute. Gives the header tuple to send: the identifier of the node and
    /// all attributes, found or not.
    pub fn on_header(&mut self, headers: &[String]) -> (out: Vec<String>)
        ensures
            final(self)@ == (SourceView {
                indices: found_indices(old(self)@.attributes, texts(headers@)),
                ..old(self)@
            }),
            texts(out@) == seq![old(self)@.id] + old(self)@.attributes,
    {
        let ghost attrs = texts(self.attributes@);
        let mut indices: Vec<usize> = Vec::new();
        let mut out: Vec<String> = Vec::new();
        out.push(self.node_id.clone());
        let mut i: usize = 0;
        assert(attrs.take(0) =~= Seq::empty());
        assert(places(indices@) =~= Seq::empty());
        while i < self.attributes.len()
            invariant
                i <= self.attributes.len(),
                attrs == texts(self.attributes@),
                self.file_path == old(self).file_path,
                self.node_id == old(self).node_id,
                self.attributes == old(self).attributes,
                places(indices@) == found_indices(attrs.take(i as int), texts(headers@)),
                texts(out@) == seq![self.node_id@] + attrs.take(i as int),
            decreases self.attributes.len() - i,
        {
            proof {
                assert(attrs.take(i + 1).drop_last() =~= attrs.take(i as int));
                assert(attrs.take(i + 1).last() == self.attributes@[i as int]@);
            }
            let ghost before = places(indices@);
            if let Some(p) = find_text(headers, self.attributes[i].as_str()) {
                indices.push(p);
                assert(places(indices@) =~= before.push(p as int));
            }
            let ghost sofar = texts(out@);
            out.push(self.attributes[i].clone());
            assert(texts(out@) =~= sofar.push(attrs[i as int]));
            assert(texts(out@) =~= seq![self.node_id@] + attrs.take(i + 1));
            i += 1;
        }
        assert(attrs.take(i as int) =~= attrs);
        self.attribute_indices = indices;
        out
    }

    /// Tells whether a record has a value at every place to pass on.
    pub fn fits(&self, record: &[String]) -> (b: bool)
        ensures
            b == forall|k: int|
                0 <= k < self@.indices.len() ==> 0 <= #[trigger] self@.indices[k] < record@.len(),
    {
        let mut k: usize = 0;
        while k < self.attribute_indices.len()
            invariant
                k <= self.attribute_indices.len(),
                forall|j: int| 0 <= j < k ==> 0 <= #[trigger] self@.indices[j] < record@.len(),
            decreases self.attribute_indices.len() - k,
        {
            if self.attribute_indices[k] >= record.len() {
                assert(!(self@.indices[k as int] < record@.len()));
                return false;
            }
            k += 1;
        }
        true
    }

    /// The data tuple to send for a record: the identifier of the node and the values at
    /// the places of the attributes.
    pub fn on_record(&self, record: &[String]) -> (out: Vec<String>)
        requires
            forall|k: int|
                0 <= k < self@.indices.len() ==> 0 <= #[trigger] self@.indices[k] < record@.len(),
        ensures
            texts(out@) == seq![self@.id] + picked(texts(record@), self@.indices),
    {
        let mut out: Vec<String> = Vec::new();
        out.push(self.node_id.clone());
        let mut k: usize = 0;
        while k < self.attribute_indices.len()
            invariant
                k <= self.attribute_indices.len(),
                forall|k: int|
                    0 <= k < self@.indices.len() ==> 0 <= #[trigger] self@.indices[k]
                        < record@.len(),
                out@.len() == k + 1,
                out@[0]@ == self.node_id@,
                forall|m: int|
                    1 <= m <= k ==> (#[trigger] out@[m])@ == record@[self@.indices[m - 1]]@,
            decreases self.attribute_indices.len() - k,
        {
            assert(self@.indices[k as int] == self.attribute_indices@[k as int]);
            out.push(record[self.attribute_indices[k]].clone());
            k += 1;
        }
        assert(texts(out@) =~= seq![self@.id] + picked(texts(record@), self@.indices));
        out
    }
}

/// Where a source file is to be read: where it is named, if a file is there; else at the
/// place under the working directory, if one is given and a file is there; else nowhere.
pub fn find_file(file: &str, found: bool, under_hint: &Option<String>, found_under_hint: bool) -> (r:
    Option<String>)
    ensures
        match r {
            Some(path) => if found {
                path@ == file@
            } else {
                found_under_hint && crate::util::opt_text(*under_hint) == Some(path@)
            },
            None => !found && (under_hint is None || !found_under_hint),
        },
{
    if found {
        Some(file.to_string())
    } else {
        match under_hint {
            Some(path) => if found_under_hint {
                Some(path.clone())
            } else {
                None
            },
            None => None,
        }
    }
}

} // verus!
