//! Files of named tensors: the length of a header, a JSON header, then the data.
use super::half;
use crate::bytes;
use crate::json;
use crate::json::{Json, JsonModel};
use crate::tensor::shape;
use crate::tensor::tensor;
use crate::tensor::tensor::{Tensor, TensorModel};
use crate::tensor::types::{DType, Device};
use crate::text;
use vstd::prelude::*;

verus! {

/// Why a file or a tensor could not be loaded.
#[derive(Debug)]
pub enum LoadError {
    JsonError(String),
    InvalidFormat(String),
    UnsupportedDtype(String),
    OffsetOutOfBounds { name: String, start: usize, end: usize, data_len: usize },
}

impl LoadError {
    /// The error's full text.
    pub open spec fn text(self) -> Seq<char> {
        match self {
            LoadError::JsonError(m) => "JSON error: "@ + m@,
            LoadError::InvalidFormat(m) => "Invalid format: "@ + m@,
            LoadError::UnsupportedDtype(m) => "Unsupported dtype: "@ + m@,
            LoadError::OffsetOutOfBounds { name, start, end, data_len } => "Tensor '"@ + name@ + "': offsets ["@ + text::decimal(start as nat)
                + ", "@ + text::decimal(end as nat) + ") exceed data length "@ + text::decimal(data_len as nat),
        }
    }

    /// The error's full text.
    pub fn message(&self) -> (r: String)
        ensures
            r@ == self.text(),
    {
        match self {
            LoadError::JsonError(m) => text::joined("JSON error: ", m),
            LoadError::InvalidFormat(m) => text::joined("Invalid format: ", m),
            LoadError::UnsupportedDtype(m) => text::joined("Unsupported dtype: ", m),
            LoadError::OffsetOutOfBounds { name, start, end, data_len } => {
                let a: String = text::joined("Tensor '", name);
                let b: String = text::joined(&a, "': offsets [");
                let c: String = text::joined(&b, &text::decimal_text(*start as u64));
                let d: String = text::joined(&c, ", ");
                let e: String = text::joined(&d, &text::decimal_text(*end as u64));
                let f: String = text::joined(&e, ") exceed data length ");
                text::joined(&f, &text::decimal_text(*data_len as u64))
            },
        }
    }
}

/// Where a tensor lies in the data, and how it is stored there.
#[derive(Debug)]
pub struct TensorInfo {
    pub dtype: String,
    pub shape: Vec<usize>,
    pub data_offsets: [usize; 2],
}

/// What a tensor's entry says.
pub struct InfoModel {
    pub dtype: Seq<char>,
    pub shape: Seq<usize>,
    pub start: usize,
    pub end: usize,
}

impl View for TensorInfo {
    type V = InfoModel;

    open spec fn view(&self) -> InfoModel {
        InfoModel { dtype: self.dtype@, shape: self.shape@, start: self.data_offsets@[0], end: self.data_offsets@[1] }
    }
}

/// The sizes that a list of values holds, if it holds nothing else.
pub open spec fn sizes_of(list: Seq<JsonModel>) -> Option<Seq<usize>>
    decreases list.len(),
{
    if list.len() == 0 {
        Some(Seq::empty())
    } else {
        match (sizes_of(list.drop_last()), list.last().natural()) {
            (Some(s), Some(n)) => if n <= usize::MAX {
                Some(s.push(n as usize))
            } else {
                None
            },
            _ => None,
        }
    }
}

/// The sizes that a value lists.
pub open spec fn size_list(v: JsonModel) -> Option<Seq<usize>> {
    match v.list() {
        Some(list) => sizes_of(list),
        None => None,
    }
}

/// What three values say of a tensor.
pub open spec fn info_from(dtype: JsonModel, dims: JsonModel, offsets: JsonModel) -> Option<InfoModel> {
    match (dtype.text(), size_list(dims), size_list(offsets)) {
        (Some(d), Some(s), Some(o)) => if o.len() == 2 {
            Some(InfoModel { dtype: d, shape: s, start: o[0], end: o[1] })
        } else {
            None
        },
        _ => None,
    }
}

/// What a value says of a tensor: an object with the three fields, or a list of the three.
pub open spec fn info_of(v: JsonModel) -> Option<InfoModel> {
    match v {
        JsonModel::Object(_) => match (v.field("dtype"@), v.field("shape"@), v.field("data_offsets"@)) {
            (Some(d), Some(s), Some(o)) => info_from(d, s, o),
            _ => None,
        },
        JsonModel::List(list) => if list.len() == 3 {
            info_from(list[0], list[1], list[2])
        } else {
            None
        },
        _ => None,
    }
}

/// The texts under the keys of an object, if there is nothing else.
pub open spec fn texts_of(entries: Seq<(Seq<char>, JsonModel)>) -> Option<Seq<(Seq<char>, Seq<char>)>>
    decreases entries.len(),
{
    if entries.len() == 0 {
        Some(Seq::empty())
    } else {
        match (texts_of(entries.drop_last()), entries.last().1.text()) {
            (Some(s), Some(t)) => Some(s.push((entries.last().0, t))),
            _ => None,
        }
    }
}

/// What a header says.
#[verifier::ext_equal]
pub struct HeaderModel {
    pub tensors: Seq<(Seq<char>, InfoModel)>,
    pub metadata: Seq<(Seq<char>, Seq<char>)>,
}

/// The first place of a name in a list, or the end of the list.
pub open spec fn place_of(list: Seq<(Seq<char>, InfoModel)>, name: Seq<char>) -> int
    decreases list.len(),
{
    if list.len() == 0 || list[0].0 == name {
        0
    } else {
        1 + place_of(list.drop_first(), name)
    }
}

/// The list with a tensor under a name: in the place of the one that has the name, or behind the
/// others.
pub open spec fn put(list: Seq<(Seq<char>, InfoModel)>, name: Seq<char>, info: InfoModel) -> Seq<(Seq<char>, InfoModel)> {
    let k = place_of(list, name);
    if k < list.len() {
        list.update(k, (name, info))
    } else {
        list.push((name, info))
    }
}

/// No name stands for two tensors, and none for the metadata.
pub open spec fn names_differ(list: Seq<(Seq<char>, InfoModel)>) -> bool {
    &&& forall|i: int, j: int| 0 <= i < j < list.len() ==> #[trigger] list[i].0 != #[trigger] list[j].0
    &&& forall|i: int| 0 <= i < list.len() ==> #[trigger] list[i].0 != "__metadata__"@
}

/// A name is at its first place and at none before it.
proof fn place_found(list: Seq<(Seq<char>, InfoModel)>, name: Seq<char>)
    ensures
        0 <= place_of(list, name) <= list.len(),
        place_of(list, name) < list.len() ==> list[place_of(list, name)].0 == name,
        forall|i: int| 0 <= i < place_of(list, name) ==> #[trigger] list[i].0 != name,
        find(list, name) == (if place_of(list, name) < list.len() {
            Some(list[place_of(list, name)].1)
        } else {
            None
        }),
    decreases list.len(),
{
    if list.len() > 0 && list[0].0 != name {
        let rest = list.drop_first();
        place_found(rest, name);
        assert forall|i: int| 0 <= i < place_of(list, name) implies #[trigger] list[i].0 != name by {
            if i > 0 {
                assert(rest[i - 1] == list[i]);
            }
        }
    }
}

/// A tensor is found under the names that the list has, and under no others.
pub proof fn found_by_name(list: Seq<(Seq<char>, InfoModel)>, name: Seq<char>)
    ensures
        find(list, name) is Some <==> exists|i: int| 0 <= i < list.len() && #[trigger] list[i].0 == name,
{
    place_found(list, name);
    let k = place_of(list, name);
    if k < list.len() {
        assert(list[k].0 == name);
    } else {
        assert forall|i: int| 0 <= i < list.len() implies #[trigger] list[i].0 != name by {}
    }
}

/// Where the names differ, each tensor is the one that is found under its name.
pub proof fn found_at_its_place(list: Seq<(Seq<char>, InfoModel)>, i: int)
    requires
        names_differ(list),
        0 <= i < list.len(),
    ensures
        find(list, list[i].0) == Some(list[i].1),
{
    let k = place_of(list, list[i].0);
    place_found(list, list[i].0);
    if k < i {
        assert(list[k].0 != list[i].0);
    } else if i < k {
        assert(list[i].0 != list[i].0);
    }
}

/// In a header no name stands for two tensors.
pub proof fn header_names_differ(entries: Seq<(Seq<char>, JsonModel)>)
    requires
        header_from(entries) is Some,
    ensures
        names_differ(header_from(entries).unwrap().tensors),
    decreases entries.len(),
{
    if entries.len() > 0 {
        header_names_differ(entries.drop_last());
        let (key, v) = entries.last();
        let before = header_from(entries.drop_last()).unwrap().tensors;
        if key != "__metadata__"@ {
            place_found(before, key);
            let after = header_from(entries).unwrap().tensors;
            let k = place_of(before, key);
            assert forall|i: int, j: int| 0 <= i < j < after.len() implies #[trigger] after[i].0 != #[trigger] after[j].0 by {
                if k < before.len() {
                    assert(after[i].0 == before[i].0 && after[j].0 == before[j].0);
                } else if j < before.len() {
                    assert(after[i].0 == before[i].0 && after[j].0 == before[j].0);
                } else {
                    assert(before[i].0 != key);
                }
            }
            assert forall|i: int| 0 <= i < after.len() implies #[trigger] after[i].0 != "__metadata__"@ by {
                if i < before.len() {
                    assert(after[i].0 == before[i].0);
                }
            }
        }
    }
}

/// What the entries of an object say as a header: each is a tensor, but for the metadata. Of two
/// entries under one key the later counts.
pub open spec fn header_from(entries: Seq<(Seq<char>, JsonModel)>) -> Option<HeaderModel>
    decreases entries.len(),
{
    if entries.len() == 0 {
        Some(HeaderModel { tensors: Seq::empty(), metadata: Seq::empty() })
    } else {
        let (key, v) = entries.last();
        match header_from(entries.drop_last()) {
            None => None,
            Some(h) => if key == "__metadata__"@ {
                match v.entries() {
                    Some(list) => match texts_of(list) {
                        Some(metadata) => Some(HeaderModel { metadata, ..h }),
                        None => None,
                    },
                    None => None,
                }
            } else {
                match info_of(v) {
                    Some(info) => Some(HeaderModel { tensors: put(h.tensors, key, info), ..h }),
                    None => None,
                }
            },
        }
    }
}

/// What a value says as a header.
pub open spec fn header_of(v: JsonModel) -> Option<HeaderModel> {
    match v.entries() {
        Some(entries) => header_from(entries),
        None => None,
    }
}

/// The number that a little-endian length field holds.
pub open spec fn header_len(data: Seq<u8>) -> int {
    bytes::le64(data, 0)
}

/// The data of a file.
pub open spec fn body(data: Seq<u8>) -> Seq<u8> {
    data.subrange(8 + header_len(data), data.len() as int)
}

/// Reads a list of sizes.
fn read_sizes(v: &Json) -> (r: Option<Vec<usize>>)
    ensures
        match r {
            Some(s) => size_list(v@) == Some(s@),
            None => size_list(v@) is None,
        },
{
    let list: &Vec<Json> = match v.as_array() {
        Some(list) => list,
        None => {
            return None;
        },
    };
    let ghost model = v@.list().unwrap();
    let n: usize = list.len();
    let mut out: Vec<usize> = Vec::new();
    let mut i: usize = 0;
    assert(model.take(0) =~= Seq::<JsonModel>::empty());
    while i < n
        invariant
            n == list@.len(),
            v@.list() == Some(model),
            n == model.len(),
            forall|j: int| 0 <= j < n ==> #[trigger] list@[j]@ == model[j],
            i <= n,
            sizes_of(model.take(i as int)) == Some(out@),
        decreases n - i,
    {
        proof {
            assert(model.take(i + 1).drop_last() =~= model.take(i as int));
            assert(list@[i as int]@ == model[i as int]);
        }
        let next: Option<u64> = list[i].as_u64();
        let bad: bool = match next {
            Some(x) => x > usize::MAX as u64,
            None => true,
        };
        if bad {
            proof {
                no_sizes(model, i + 1);
            }
            return None;
        }
        match next {
            Some(x) => {
                out.push(x as usize);
            },
            None => {},
        }
        i = i + 1;
    }
    assert(model.take(n as int) =~= model);
    Some(out)
}

/// A list that starts with something else than sizes is no list of sizes.
proof fn no_sizes(list: Seq<JsonModel>, n: int)
    requires
        0 <= n <= list.len(),
        sizes_of(list.take(n)) is None,
    ensures
        sizes_of(list) is None,
    decreases list.len() - n,
{
    if n < list.len() {
        assert(list.take(n + 1).drop_last() =~= list.take(n));
        no_sizes(list, n + 1);
    } else {
        assert(list.take(n) =~= list);
    }
}

/// Reads what three values say of a tensor.
fn read_info_from(dtype: &Json, dims: &Json, offsets: &Json) -> (r: Option<TensorInfo>)
    ensures
        match r {
            Some(t) => info_from(dtype@, dims@, offsets@) == Some(t@),
            None => info_from(dtype@, dims@, offsets@) is None,
        },
{
    match (dtype.as_str(), read_sizes(dims), read_sizes(offsets)) {
        (Some(d), Some(s), Some(o)) => {
            if o.len() == 2 {
                Some(TensorInfo { dtype: d.to_owned(), shape: s, data_offsets: [o[0], o[1]] })
            } else {
                None
            }
        },
        _ => None,
    }
}

/// Reads what a value says of a tensor.
fn read_info(v: &Json) -> (r: Option<TensorInfo>)
    ensures
        match r {
            Some(t) => info_of(v@) == Some(t@),
            None => info_of(v@) is None,
        },
{
    match v {
        Json::Object(_) => match (v.get("dtype"), v.get("shape"), v.get("data_offsets")) {
            (Some(d), Some(s), Some(o)) => read_info_from(d, s, o),
            _ => None,
        },
        Json::List(list) => {
            if list.len() == 3 {
                read_info_from(&list[0], &list[1], &list[2])
            } else {
                None
            }
        },
        _ => None,
    }
}

/// Named texts.
pub open spec fn pairs(v: Seq<(String, String)>) -> Seq<(Seq<char>, Seq<char>)> {
    Seq::new(v.len(), |i: int| (v[i].0@, v[i].1@))
}

/// Named tensors.
pub open spec fn infos(v: Seq<(String, TensorInfo)>) -> Seq<(Seq<char>, InfoModel)> {
    Seq::new(v.len(), |i: int| (v[i].0@, v[i].1@))
}

/// The header of a file.
#[derive(Debug)]
pub struct SafeTensorsHeader {
    pub tensors: Vec<(String, TensorInfo)>,
    pub metadata: Vec<(String, String)>,
}

impl View for SafeTensorsHeader {
    type V = HeaderModel;

    open spec fn view(&self) -> HeaderModel {
        HeaderModel { tensors: infos(self.tensors@), metadata: pairs(self.metadata@) }
    }
}

/// Reads the texts of an object.
fn read_texts(v: &Json) -> (r: Option<Vec<(String, String)>>)
    ensures
        match r {
            Some(s) => v@.entries() is Some && texts_of(v@.entries().unwrap()) == Some(pairs(s@)),
            None => v@.entries() is None || texts_of(v@.entries().unwrap()) is None,
        },
{
    let list: &Vec<(String, Json)> = match v.as_object() {
        Some(list) => list,
        None => {
            return None;
        },
    };
    let ghost model = v@.entries().unwrap();
    let n: usize = list.len();
    let mut out: Vec<(String, String)> = Vec::new();
    let mut i: usize = 0;
    assert(model.take(0) =~= Seq::<(Seq<char>, JsonModel)>::empty());
    assert(pairs(out@) =~= Seq::<(Seq<char>, Seq<char>)>::empty());
    while i < n
        invariant
            n == list@.len(),
            v@.entries() == Some(model),
            n == model.len(),
            forall|j: int| 0 <= j < n ==> model[j] == (#[trigger] list@[j].0@, list@[j].1@),
            i <= n,
            texts_of(model.take(i as int)) == Some(pairs(out@)),
        decreases n - i,
    {
        let ghost held = out@;
        proof {
            assert(model.take(i + 1).drop_last() =~= model.take(i as int));
            assert(model[i as int] == (list@[i as int].0@, list@[i as int].1@));
        }
        match list[i].1.as_str() {
            Some(t) => {
                out.push((list[i].0.clone(), t.to_owned()));
                assert(pairs(out@) =~= pairs(held).push((list@[i as int].0@, t@)));
            },
            None => {
                proof {
                    no_texts(model, i + 1);
                }
                return None;
            },
        }
        i = i + 1;
    }
    assert(model.take(n as int) =~= model);
    Some(out)
}

/// An object that starts with something else than texts does not hold texts alone.
proof fn no_texts(list: Seq<(Seq<char>, JsonModel)>, n: int)
    requires
        0 <= n <= list.len(),
        texts_of(list.take(n)) is None,
    ensures
        texts_of(list) is None,
    decreases list.len() - n,
{
    if n < list.len() {
        assert(list.take(n + 1).drop_last() =~= list.take(n));
        no_texts(list, n + 1);
    } else {
        assert(list.take(n) =~= list);
    }
}

/// An object that starts with something else than tensors is no header.
proof fn no_header(list: Seq<(Seq<char>, JsonModel)>, n: int)
    requires
        0 <= n <= list.len(),
        header_from(list.take(n)) is None,
    ensures
        header_from(list) is None,
    decreases list.len() - n,
{
    if n < list.len() {
        assert(list.take(n + 1).drop_last() =~= list.take(n));
        no_header(list, n + 1);
    } else {
        assert(list.take(n) =~= list);
    }
}

impl SafeTensorsHeader {
    /// Reads a header from a value, if the value is one.
    pub fn read(v: &Json) -> (r: Option<SafeTensorsHeader>)
        ensures
            match r {
                Some(h) => header_of(v@) == Some(h@) && names_differ(h@.tensors),
                None => header_of(v@) is None,
            },
    {
        let list: &Vec<(String, Json)> = match v.as_object() {
            Some(list) => list,
            None => {
                return None;
            },
        };
        let ghost model = v@.entries().unwrap();
        let n: usize = list.len();
        let mut h: SafeTensorsHeader = SafeTensorsHeader { tensors: Vec::new(), metadata: Vec::new() };
        let mut i: usize = 0;
        assert(model.take(0) =~= Seq::<(Seq<char>, JsonModel)>::empty());
        assert(h@ =~= (HeaderModel { tensors: Seq::empty(), metadata: Seq::empty() }));
        while i < n
            invariant
                n == list@.len(),
                v@.entries() == Some(model),
                n == model.len(),
                forall|j: int| 0 <= j < n ==> model[j] == (#[trigger] list@[j].0@, list@[j].1@),
                i <= n,
                header_from(model.take(i as int)) == Some(h@),
            decreases n - i,
        {
            let ghost held = h@;
            let ghost tensors = h.tensors@;
            proof {
                assert(model.take(i + 1).drop_last() =~= model.take(i as int));
                assert(model[i as int] == (list@[i as int].0@, list@[i as int].1@));
            }
            if text::same(&list[i].0, "__metadata__") {
                match read_texts(&list[i].1) {
                    Some(texts) => {
                        h.metadata = texts;
                        assert(h@ =~= (HeaderModel { metadata: pairs(texts@), ..held }));
                    },
                    None => {
                        proof {
                            no_header(model, i + 1);
                        }
                        return None;
                    },
                }
            } else {
                match read_info(&list[i].1) {
                    Some(info) => {
                        let ghost m = info@;
                        let at: Option<usize> = h.place(&list[i].0);
                        proof {
                            place_found(held.tensors, list@[i as int].0@);
                        }
                        match at {
                            Some(k) => {
                                h.tensors.set(k, (list[i].0.clone(), info));
                            },
                            None => {
                                h.tensors.push((list[i].0.clone(), info));
                            },
                        }
                        assert(infos(h.tensors@) =~= put(infos(tensors), list@[i as int].0@, m));
                        assert(h@ =~= (HeaderModel { tensors: put(held.tensors, list@[i as int].0@, m), ..held }));
                    },
                    None => {
                        proof {
                            no_header(model, i + 1);
                        }
                        return None;
                    },
                }
            }
            i = i + 1;
        }
        assert(model.take(n as int) =~= model);
        proof {
            header_names_differ(model);
        }
        Some(h)
    }
}

/// How the elements of a tensor are stored.
#[derive(Debug, Clone, Copy, PartialEq, Eq, Structural)]
pub enum Stored {
    F32,
    F16,
    BF16,
    I8,
    I4,
    Bit1,
}

/// The way of storing that a name stands for.
pub open spec fn stored_as(dtype: Seq<char>) -> Option<Stored> {
    if dtype == "F32"@ || dtype == "float32"@ || dtype == "Float32"@ {
        Some(Stored::F32)
    } else if dtype == "F16"@ || dtype == "float16"@ || dtype == "Float16"@ || dtype == "half"@ {
        Some(Stored::F16)
    } else if dtype == "BF16"@ || dtype == "bfloat16"@ || dtype == "BFloat16"@ {
        Some(Stored::BF16)
    } else if dtype == "I8"@ || dtype == "int8"@ || dtype == "Int8"@ {
        Some(Stored::I8)
    } else if dtype == "I4"@ || dtype == "int4"@ || dtype == "Int4"@ {
        Some(Stored::I4)
    } else if dtype == "BIT1"@ || dtype == "bit1"@ || dtype == "Bit1"@ || dtype == "1bit"@ {
        Some(Stored::Bit1)
    } else {
        None
    }
}

/// Finds the way of storing that a name stands for.
pub fn storage_of(dtype: &str) -> (r: Option<Stored>)
    ensures
        r == stored_as(dtype@),
{
    if text::same(dtype, "F32") || text::same(dtype, "float32") || text::same(dtype, "Float32") {
        Some(Stored::F32)
    } else if text::same(dtype, "F16") || text::same(dtype, "float16") || text::same(dtype, "Float16") || text::same(dtype, "half") {
        Some(Stored::F16)
    } else if text::same(dtype, "BF16") || text::same(dtype, "bfloat16") || text::same(dtype, "BFloat16") {
        Some(Stored::BF16)
    } else if text::same(dtype, "I8") || text::same(dtype, "int8") || text::same(dtype, "Int8") {
        Some(Stored::I8)
    } else if text::same(dtype, "I4") || text::same(dtype, "int4") || text::same(dtype, "Int4") {
        Some(Stored::I4)
    } else if text::same(dtype, "BIT1") || text::same(dtype, "bit1") || text::same(dtype, "Bit1") || text::same(dtype, "1bit") {
        Some(Stored::Bit1)
    } else {
        None
    }
}

/// How many elements bytes hold; bytes left over at the end do not count.
pub open spec fn held(kind: Stored, len: int) -> int {
    match kind {
        Stored::F32 => len / 4,
        Stored::F16 | Stored::BF16 => len / 2,
        Stored::I8 => len,
        Stored::I4 => 2 * len,
        Stored::Bit1 => 8 * len,
    }
}

/// A byte as a signed number.
pub open spec fn signed(b: u8) -> int {
    if b >= 128 {
        b - 256
    } else {
        b as int
    }
}

/// Half a byte as a signed number: the lower half for even places.
pub open spec fn signed_half(b: u8, i: int) -> int {
    let v = if i % 2 == 0 {
        b as int % 16
    } else {
        b as int / 16
    };
    if v >= 8 {
        v - 16
    } else {
        v
    }
}

/// The bits of the float that element `i` stands for.
pub open spec fn decoded(kind: Stored, data: Seq<u8>, i: int) -> u32 {
    match kind {
        Stored::F32 => bytes::le32(data, 4 * i) as u32,
        Stored::F16 => half::half_exact(bytes::le16(data, 2 * i) as u16) as u32,
        Stored::BF16 => (bytes::le16(data, 2 * i) * 0x1_0000) as u32,
        Stored::I8 => half::ratio_bits(signed(data[i]), 127) as u32,
        Stored::I4 => half::ratio_bits(signed_half(data[i / 2], i), 7) as u32,
        Stored::Bit1 => 0,
    }
}

/// The data are as long as the dimensions ask for.
pub open spec fn matches_dims(kind: Stored, len: int, dims: Seq<usize>) -> bool {
    match kind {
        Stored::Bit1 => tensor::storable(dims, DType::BIT1) && len == shape::packed_len(shape::product(dims), 1),
        _ => tensor::storable(dims, DType::F32) && held(kind, len) == shape::product(dims),
    }
}

/// The tensor that data stand for.
pub open spec fn stands_for(kind: Stored, data: Seq<u8>, dims: Seq<usize>, t: TensorModel) -> bool {
    &&& t.wf()
    &&& t.shape == dims
    &&& t.device == Device::Cpu
    &&& match kind {
        Stored::Bit1 => t.dtype is BIT1 && t.data == data,
        _ => t.dtype is F32 && forall|i: int| 0 <= i < t.count() ==> #[trigger] t.lane(i) == decoded(kind, data, i),
    }
}

/// Decodes one element.
fn decode_one(kind: Stored, data: &[u8], i: usize) -> (r: u32)
    requires
        kind !is Bit1,
        0 <= i < held(kind, data@.len() as int),
    ensures
        r == decoded(kind, data@, i as int),
{
    assert(data.len() == data@.len());
    match kind {
        Stored::F32 => bytes::u32_at(data, 4 * i),
        Stored::F16 => half::exact_half(bytes::u16_at(data, 2 * i)),
        Stored::BF16 => half::from_upper(bytes::u16_at(data, 2 * i)),
        Stored::I8 => {
            let b: u8 = data[i];
            let v: i32 = if b >= 128 { b as i32 - 256 } else { b as i32 };
            half::ratio(v, 127)
        },
        Stored::I4 => {
            let b: u8 = data[i / 2];
            let v: i32 = if i % 2 == 0 { (b % 16) as i32 } else { (b / 16) as i32 };
            let w: i32 = if v >= 8 { v - 16 } else { v };
            half::ratio(w, 7)
        },
        Stored::Bit1 => 0,
    }
}

/// Makes a tensor of bytes; narrower floats and integers become floats.
pub fn bytes_to_tensor(dtype: &str, data: &[u8], dims: &[usize]) -> (r: Result<Tensor, LoadError>)
    requires
        stored_as(dtype@) matches Some(kind) ==> matches_dims(kind, data@.len() as int, dims@),
    ensures
        match r {
            Ok(t) => stored_as(dtype@) is Some && stands_for(stored_as(dtype@).unwrap(), data@, dims@, t@),
            Err(e) => stored_as(dtype@) is None && e is UnsupportedDtype && e->UnsupportedDtype_0@ == dtype@,
        },
{
    match storage_of(dtype) {
        None => Err(LoadError::UnsupportedDtype(dtype.to_owned())),
        Some(kind) => {
            if matches!(kind, Stored::Bit1) {
                let mut copy: Vec<u8> = Vec::new();
                copy.extend_from_slice(data);
                assert(copy@ =~= data@);
                return Ok(Tensor::from_packed(copy, dims, DType::BIT1));
            }
            let n: usize = shape::count(dims);
            let mut lanes: Vec<u32> = Vec::new();
            let mut i: usize = 0;
            while i < n
                invariant
                    kind !is Bit1,
                    n == held(kind, data@.len() as int),
                    i <= n,
                    lanes@.len() == i,
                    forall|j: int| 0 <= j < i ==> #[trigger] lanes@[j] == decoded(kind, data@, j),
                decreases n - i,
            {
                lanes.push(decode_one(kind, data, i));
                i = i + 1;
            }
            let t: Tensor = Tensor::from_slice(lanes.as_slice(), dims);
            proof {
                assert forall|j: int| 0 <= j < t@.count() implies #[trigger] t@.lane(j) == decoded(kind, data@, j) by {
                    assert(t@.lanes()[j] == lanes@[j]);
                }
            }
            Ok(t)
        },
    }
}

/// Whether data are as long as the dimensions ask for.
pub fn test_dims(kind: Stored, len: usize, dims: &[usize]) -> (r: bool)
    ensures
        r == matches_dims(kind, len as int, dims@),
{
    let n: usize = match shape::checked_count(dims) {
        Some(n) => n,
        None => {
            return false;
        },
    };
    match kind {
        Stored::Bit1 => len as u128 == (n as u128 + 7) / 8,
        Stored::F32 => n <= usize::MAX / 32 && n == len / 4,
        Stored::F16 | Stored::BF16 => n <= usize::MAX / 32 && n == len / 2,
        Stored::I8 => n <= usize::MAX / 32 && n == len,
        Stored::I4 => n <= usize::MAX / 32 && n as u128 == 2 * (len as u128),
    }
}

/// What a header says of a tensor.
pub open spec fn find(tensors: Seq<(Seq<char>, InfoModel)>, name: Seq<char>) -> Option<InfoModel>
    decreases tensors.len(),
{
    if tensors.len() == 0 {
        None
    } else if tensors[0].0 == name {
        Some(tensors[0].1)
    } else {
        find(tensors.drop_first(), name)
    }
}

/// The tensor lies inside the data.
pub open spec fn in_bounds(info: InfoModel, len: int) -> bool {
    info.start <= info.end <= len
}

/// The bytes of a tensor.
pub open spec fn part(info: InfoModel, data: Seq<u8>) -> Seq<u8> {
    data.subrange(info.start as int, info.end as int)
}

/// A tensor whose bytes can be had and read has as many of them as its shape asks for.
pub open spec fn loadable(h: HeaderModel, data: Seq<u8>, name: Seq<char>) -> bool {
    match find(h.tensors, name) {
        Some(info) => match stored_as(info.dtype) {
            Some(kind) => in_bounds(info, data.len() as int) ==> matches_dims(kind, info.end - info.start, info.shape),
            None => true,
        },
        None => true,
    }
}

/// What loading a tensor gives.
pub open spec fn loads(h: HeaderModel, data: Seq<u8>, name: Seq<char>, r: Result<Tensor, LoadError>) -> bool {
    match find(h.tensors, name) {
        None => r matches Err(LoadError::InvalidFormat(m)) && m@ == "Tensor '"@ + name + "' not found"@,
        Some(info) => if !in_bounds(info, data.len() as int) {
            r matches Err(LoadError::OffsetOutOfBounds { name: n, start, end, data_len }) && n@ == name && start == info.start && end
                == info.end && data_len == data.len()
        } else {
            match stored_as(info.dtype) {
                None => r matches Err(LoadError::UnsupportedDtype(m)) && m@ == info.dtype,
                Some(kind) => r matches Ok(t) && stands_for(kind, part(info, data), info.shape, t@),
            }
        },
    }
}

/// Names and tensors come together, in the order of the header.
pub open spec fn loads_all(h: HeaderModel, data: Seq<u8>, r: Result<Vec<(String, Tensor)>, LoadError>) -> bool {
    match r {
        Ok(v) => v@.len() == h.tensors.len() && forall|i: int| 0 <= i < v@.len() ==> #[trigger] loaded_pair(h, data, i, v@[i]),
        Err(e) => exists|i: int| 0 <= i < h.tensors.len() && #[trigger] loads(h, data, h.tensors[i].0, Err(e)),
    }
}

/// A pair of a name and its tensor.
pub open spec fn loaded_pair(h: HeaderModel, data: Seq<u8>, i: int, p: (String, Tensor)) -> bool {
    p.0@ == h.tensors[i].0 && loads(h, data, h.tensors[i].0, Ok(p.1))
}

/// A list of the names of the tensors, in their order: a tensor is found under each of them and
/// under no other name, and where the names differ each is listed once.
pub open spec fn lists_names(list: Seq<(Seq<char>, InfoModel)>, names: Seq<&str>) -> bool {
    &&& names.len() == list.len()
    &&& forall|i: int| 0 <= i < names.len() ==> #[trigger] names[i]@ == list[i].0
    &&& forall|name: Seq<char>| #[trigger] find(list, name) is Some <==> exists|i: int| 0 <= i < names.len() && #[trigger] names[i]@ == name
    &&& names_differ(list) ==> forall|i: int, j: int| 0 <= i < j < names.len() ==> #[trigger] names[i]@ != #[trigger] names[j]@
}

/// The names in their order are a list of the names.
proof fn names_listed(list: Seq<(Seq<char>, InfoModel)>, names: Seq<&str>)
    requires
        names.len() == list.len(),
        forall|i: int| 0 <= i < names.len() ==> #[trigger] names[i]@ == list[i].0,
    ensures
        lists_names(list, names),
{
    assert forall|name: Seq<char>| #[trigger] find(list, name) is Some <==> exists|i: int| 0 <= i < names.len() && #[trigger] names[i]@ == name by {
        found_by_name(list, name);
        if find(list, name) is Some {
            let i = choose|i: int| 0 <= i < list.len() && #[trigger] list[i].0 == name;
            assert(names[i]@ == name);
        }
        if exists|i: int| 0 <= i < names.len() && #[trigger] names[i]@ == name {
            let i = choose|i: int| 0 <= i < names.len() && #[trigger] names[i]@ == name;
            assert(list[i].0 == name);
        }
    }
}

impl SafeTensorsHeader {
    /// The place of a tensor in the list.
    fn place(&self, name: &str) -> (r: Option<usize>)
        ensures
            match r {
                Some(i) => i < self.tensors@.len() && i == place_of(self@.tensors, name@) && find(self@.tensors, name@) == Some(
                    self.tensors@[i as int].1@,
                ),
                None => place_of(self@.tensors, name@) == self@.tensors.len() && find(self@.tensors, name@) is None,
            },
    {
        let ghost model = self@.tensors;
        let n: usize = self.tensors.len();
        let mut i: usize = 0;
        assert(model.skip(0) =~= model);
        while i < n
            invariant
                n == self.tensors@.len(),
                model == infos(self.tensors@),
                i <= n,
                find(model, name@) == find(model.skip(i as int), name@),
                place_of(model, name@) == i + place_of(model.skip(i as int), name@),
            decreases n - i,
        {
            assert(model.skip(i as int).drop_first() =~= model.skip(i + 1));
            assert(model.skip(i as int)[0] == model[i as int]);
            if text::same(&self.tensors[i].0, name) {
                return Some(i);
            }
            i = i + 1;
        }
        None
    }

    /// The names of the tensors.
    pub fn names(&self) -> (r: Vec<&str>)
        ensures
            lists_names(self@.tensors, r@),
    {
        let mut out: Vec<&str> = Vec::new();
        let n: usize = self.tensors.len();
        let mut i: usize = 0;
        while i < n
            invariant
                n == self.tensors@.len(),
                i <= n,
                out@.len() == i,
                forall|j: int| 0 <= j < i ==> #[trigger] out@[j]@ == self@.tensors[j].0,
            decreases n - i,
        {
            out.push(self.tensors[i].0.as_str());
            i = i + 1;
        }
        proof {
            names_listed(self@.tensors, out@);
        }
        out
    }

    /// What is said of a tensor.
    pub fn info(&self, name: &str) -> (r: Option<&TensorInfo>)
        ensures
            match r {
                Some(info) => find(self@.tensors, name@) == Some(info@),
                None => find(self@.tensors, name@) is None,
            },
    {
        match self.place(name) {
            Some(i) => Some(&self.tensors[i].1),
            None => None,
        }
    }

    /// Whether a tensor's bytes are as many as its shape asks for.
    pub fn test_loadable(&self, data: &[u8], name: &str) -> (r: bool)
        ensures
            r == loadable(self@, data@, name@),
    {
        match self.info(name) {
            None => true,
            Some(info) => {
                let start: usize = info.data_offsets[0];
                let end: usize = info.data_offsets[1];
                match storage_of(&info.dtype) {
                    None => true,
                    Some(kind) => end > data.len() || start > end || test_dims(kind, end - start, info.shape.as_slice()),
                }
            },
        }
    }

    /// Loads a tensor out of the data.
    pub fn load_from(&self, data: &[u8], name: &str) -> (r: Result<Tensor, LoadError>)
        requires
            loadable(self@, data@, name@),
        ensures
            loads(self@, data@, name@, r),
    {
        match self.info(name) {
            None => {
                let head: String = text::joined("Tensor '", name);
                Err(LoadError::InvalidFormat(text::joined(&head, "' not found")))
            },
            Some(info) => {
                let start: usize = info.data_offsets[0];
                let end: usize = info.data_offsets[1];
                if end > data.len() || start > end {
                    return Err(LoadError::OffsetOutOfBounds { name: name.to_owned(), start, end, data_len: data.len() });
                }
                let bytes: &[u8] = vstd::slice::slice_subrange(data, start, end);
                bytes_to_tensor(&info.dtype, bytes, info.shape.as_slice())
            },
        }
    }

    /// Loads all tensors; stops at the first that cannot be loaded.
    pub fn load_all_from(&self, data: &[u8]) -> (r: Result<Vec<(String, Tensor)>, LoadError>)
        requires
            forall|i: int| 0 <= i < self@.tensors.len() ==> loadable(self@, data@, #[trigger] self@.tensors[i].0),
        ensures
            loads_all(self@, data@, r),
    {
        let mut out: Vec<(String, Tensor)> = Vec::new();
        let n: usize = self.tensors.len();
        let mut i: usize = 0;
        while i < n
            invariant
                n == self.tensors@.len(),
                i <= n,
                out@.len() == i,
                forall|j: int| 0 <= j < self@.tensors.len() ==> loadable(self@, data@, #[trigger] self@.tensors[j].0),
                forall|j: int| 0 <= j < i ==> #[trigger] loaded_pair(self@, data@, j, out@[j]),
            decreases n - i,
        {
            assert(self@.tensors[i as int].0 == self.tensors@[i as int].0@);
            match self.load_from(data, &self.tensors[i].0) {
                Ok(t) => {
                    let ghost held = out@;
                    out.push((self.tensors[i].0.clone(), t));
                    assert forall|j: int| 0 <= j <= i implies #[trigger] loaded_pair(self@, data@, j, out@[j]) by {
                        if j < i {
                            assert(loaded_pair(self@, data@, j, held[j]));
                        }
                    }
                },
                Err(e) => {
                    return Err(e);
                },
            }
            i = i + 1;
        }
        Ok(out)
    }
}

/// The bytes of the header.
pub open spec fn header_bytes(data: Seq<u8>) -> Seq<u8> {
    data.subrange(8, 8 + header_len(data))
}

/// What reading the header gives: the header, or an error that starts with the given words where
/// the bytes are too few for their length field or for the header. The parser keeps one value for
/// each key of an object, so a key that is written twice is seen once.
pub open spec fn opens(data: Seq<u8>, short: Seq<char>, beyond: Seq<char>, r: Result<HeaderModel, LoadError>) -> bool {
    if data.len() < 8 {
        r matches Err(LoadError::InvalidFormat(m)) && m@ == short
    } else if 8 + header_len(data) > data.len() {
        r matches Err(LoadError::InvalidFormat(m)) && m@ == beyond
    } else {
        match json::bytes_tree(header_bytes(data)) {
            Err(e) => r matches Err(LoadError::JsonError(m)) && m@ == e,
            Ok(v) => match header_of(v) {
                Some(h) => r matches Ok(header) && header == h,
                None => r matches Err(LoadError::JsonError(m)) && m@ == "the header does not describe tensors"@,
            },
        }
    }
}

/// A result with the header taken for what it says.
pub open spec fn header_result(r: Result<(SafeTensorsHeader, usize), LoadError>) -> Result<HeaderModel, LoadError> {
    match r {
        Ok(p) => Ok(p.0@),
        Err(e) => Err(e),
    }
}

/// Reads the header and finds where the data start.
fn open_bytes(data: &[u8], short: &str, beyond: &str) -> (r: Result<(SafeTensorsHeader, usize), LoadError>)
    ensures
        opens(data@, short@, beyond@, header_result(r)),
        r matches Ok(p) ==> p.1 == 8 + header_len(data@) && p.1 <= data@.len() && names_differ(p.0@.tensors),
{
    if data.len() < 8 {
        return Err(LoadError::InvalidFormat(short.to_owned()));
    }
    let n: u64 = bytes::u64_at(data, 0);
    let room: usize = data.len() - 8;
    if n > room as u64 {
        return Err(LoadError::InvalidFormat(beyond.to_owned()));
    }
    let end: usize = 8 + n as usize;
    let head: &[u8] = vstd::slice::slice_subrange(data, 8, end);
    match json::parse_bytes(head) {
        Err(m) => Err(LoadError::JsonError(m)),
        Ok(v) => match SafeTensorsHeader::read(&v) {
            Some(h) => Ok((h, end)),
            None => Err(LoadError::JsonError("the header does not describe tensors".to_owned())),
        },
    }
}

/// A file of tensors with data of its own.
#[derive(Debug)]
pub struct SafeTensorsLoader {
    pub header: SafeTensorsHeader,
    pub data: Vec<u8>,
}

/// A result with the loader taken for its header.
pub open spec fn loader_result(r: Result<SafeTensorsLoader, LoadError>) -> Result<HeaderModel, LoadError> {
    match r {
        Ok(l) => Ok(l.header@),
        Err(e) => Err(e),
    }
}

impl SafeTensorsLoader {
    /// Takes the bytes of a file.
    pub fn load(file: &[u8]) -> (r: Result<SafeTensorsLoader, LoadError>)
        ensures
            opens(file@, "File too small"@, "Header extends beyond file"@, loader_result(r)),
            r matches Ok(l) ==> l.data@ == body(file@) && names_differ(l.header@.tensors),
    {
        match open_bytes(file, "File too small", "Header extends beyond file") {
            Ok((header, at)) => Ok(SafeTensorsLoader { header, data: rest(file, at) }),
            Err(e) => Err(e),
        }
    }

    /// Takes bytes in memory.
    pub fn from_bytes(data: &[u8]) -> (r: Result<SafeTensorsLoader, LoadError>)
        ensures
            opens(data@, "Data too small"@, "Header extends beyond data"@, loader_result(r)),
            r matches Ok(l) ==> l.data@ == body(data@) && names_differ(l.header@.tensors),
    {
        match open_bytes(data, "Data too small", "Header extends beyond data") {
            Ok((header, at)) => Ok(SafeTensorsLoader { header, data: rest(data, at) }),
            Err(e) => Err(e),
        }
    }

    /// The names of the tensors.
    pub fn tensor_names(&self) -> (r: Vec<&str>)
        ensures
            lists_names(self.header@.tensors, r@),
    {
        self.header.names()
    }

    /// The element type, the shape and the offsets of a tensor.
    pub fn tensor_info(&self, name: &str) -> (r: Option<(&str, &[usize], [usize; 2])>)
        ensures
            match r {
                Some((dtype, dims, offsets)) => find(self.header@.tensors, name@) == Some(
                    (InfoModel { dtype: dtype@, shape: dims@, start: offsets@[0], end: offsets@[1] }),
                ),
                None => find(self.header@.tensors, name@) is None,
            },
    {
        match self.header.info(name) {
            Some(info) => Some((info.dtype.as_str(), info.shape.as_slice(), info.data_offsets)),
            None => None,
        }
    }

    /// Whether there is a tensor of that name.
    pub fn has_tensor(&self, name: &str) -> (r: bool)
        ensures
            r == find(self.header@.tensors, name@) is Some,
    {
        self.header.info(name).is_some()
    }

    /// Loads a tensor.
    pub fn load_tensor(&self, name: &str) -> (r: Result<Tensor, LoadError>)
        requires
            loadable(self.header@, self.data@, name@),
        ensures
            loads(self.header@, self.data@, name@, r),
    {
        self.header.load_from(self.data.as_slice(), name)
    }

    /// Loads all tensors.
    pub fn load_all_tensors(&self) -> (r: Result<Vec<(String, Tensor)>, LoadError>)
        requires
            forall|i: int|
                0 <= i < self.header@.tensors.len() ==> loadable(self.header@, self.data@, #[trigger] self.header@.tensors[i].0),
        ensures
            loads_all(self.header@, self.data@, r),
    {
        self.header.load_all_from(self.data.as_slice())
    }

    /// The texts that the file says of itself.
    pub fn metadata(&self) -> (r: &Vec<(String, String)>)
        ensures
            pairs(r@) == self.header@.metadata,
    {
        &self.header.metadata
    }
}

/// The bytes from a place on.
fn rest(data: &[u8], at: usize) -> (r: Vec<u8>)
    requires
        at <= data@.len(),
    ensures
        r@ == data@.subrange(at as int, data@.len() as int),
{
    let part: &[u8] = vstd::slice::slice_subrange(data, at, data.len());
    let mut out: Vec<u8> = Vec::new();
    out.extend_from_slice(part);
    assert(out@ =~= part@);
    out
}

/// A file of tensors whose bytes are mapped: the data are read where they lie.
#[derive(Debug)]
pub struct MmapSafeTensors<'a> {
    pub header: SafeTensorsHeader,
    pub data: &'a [u8],
}

/// A result with the mapped file taken for its header.
pub open spec fn mapped_result(r: Result<MmapSafeTensors<'_>, LoadError>) -> Result<HeaderModel, LoadError> {
    match r {
        Ok(l) => Ok(l.header@),
        Err(e) => Err(e),
    }
}

impl<'a> MmapSafeTensors<'a> {
    /// Takes the bytes of a mapped file.
    pub fn load_mmap(file: &'a [u8]) -> (r: Result<MmapSafeTensors<'a>, LoadError>)
        ensures
            opens(file@, "File too small"@, "Header extends beyond file"@, mapped_result(r)),
            r matches Ok(l) ==> l.data@ == body(file@) && names_differ(l.header@.tensors),
    {
        match open_bytes(file, "File too small", "Header extends beyond file") {
            Ok((header, at)) => Ok(MmapSafeTensors { header, data: vstd::slice::slice_subrange(file, at, file.len()) }),
            Err(e) => Err(e),
        }
    }

    /// The names of the tensors.
    pub fn tensor_names(&self) -> (r: Vec<&str>)
        ensures
            lists_names(self.header@.tensors, r@),
    {
        self.header.names()
    }

    /// Whether there is a tensor of that name.
    pub fn has_tensor(&self, name: &str) -> (r: bool)
        ensures
            r == find(self.header@.tensors, name@) is Some,
    {
        self.header.info(name).is_some()
    }

    /// The element type, the shape and the offsets of a tensor.
    pub fn tensor_info(&self, name: &str) -> (r: Option<(&str, &[usize], [usize; 2])>)
        ensures
            match r {
                Some((dtype, dims, offsets)) => find(self.header@.tensors, name@) == Some(
                    (InfoModel { dtype: dtype@, shape: dims@, start: offsets@[0], end: offsets@[1] }),
                ),
                None => find(self.header@.tensors, name@) is None,
            },
    {
        match self.header.info(name) {
            Some(info) => Some((info.dtype.as_str(), info.shape.as_slice(), info.data_offsets)),
            None => None,
        }
    }

    /// Loads a tensor.
    pub fn load_tensor(&self, name: &str) -> (r: Result<Tensor, LoadError>)
        requires
            loadable(self.header@, self.data@, name@),
        ensures
            loads(self.header@, self.data@, name@, r),
    {
        self.header.load_from(self.data, name)
    }

    /// Loads all tensors.
    pub fn load_all_tensors(&self) -> (r: Result<Vec<(String, Tensor)>, LoadError>)
        requires
            forall|i: int|
                0 <= i < self.header@.tensors.len() ==> loadable(self.header@, self.data@, #[trigger] self.header@.tensors[i].0),
        ensures
            loads_all(self.header@, self.data@, r),
    {
        self.header.load_all_from(self.data)
    }

    /// The texts that the file says of itself.
    pub fn metadata(&self) -> (r: &Vec<(String, String)>)
        ensures
            pairs(r@) == self.header@.metadata,
    {
        &self.header.metadata
    }
}

/// A mapped file and the same bytes in memory give the same tensors: what the one loads the other
/// loads too.
pub proof fn mapped_file_loads_the_same(file: Seq<u8>, h: HeaderModel, k: HeaderModel)
    requires
        opens(file, "File too small"@, "Header extends beyond file"@, Ok(h)),
        opens(file, "Data too small"@, "Header extends beyond data"@, Ok(k)),
    ensures
        h == k,
        forall|name: Seq<char>, r: Result<Tensor, LoadError>| #[trigger] loads(h, body(file), name, r) == loads(k, body(file), name, r),
{
}

} // verus!
