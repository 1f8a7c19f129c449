//! What the header of a safetensors file says.
use super::filed;
use super::safetensors;
use super::safetensors::{HeaderModel, InfoModel, LoadError};
use crate::json;
use crate::json::JsonModel;
use crate::tensor::tensor::Tensor;
use vstd::prelude::*;

verus! {

/// Numbers of a header.
pub open spec fn numbers(list: Seq<usize>) -> Seq<JsonModel> {
    Seq::new(list.len(), |i: int| JsonModel::Number { natural: Some(list[i] as u64), double: None })
}

proof fn numbers_are_sizes(list: Seq<usize>)
    ensures
        safetensors::sizes_of(numbers(list)) == Some(list),
    decreases list.len(),
{
    if list.len() > 0 {
        let front = list.drop_last();
        numbers_are_sizes(front);
        assert(numbers(list).drop_last() =~= numbers(front));
        assert(front.push(list.last()) =~= list);
    } else {
        assert(list =~= Seq::<usize>::empty());
    }
}

/// A tensor is told by its type, its shape and where its bytes start and end.
pub proof fn tensor_is_told_by_its_fields(v: JsonModel, dtype: Seq<char>, dims: Seq<usize>, start: usize, end: usize)
    requires
        v is Object,
        v.field("dtype"@) == Some(JsonModel::Text(dtype)),
        v.field("shape"@) == Some(JsonModel::List(numbers(dims))),
        v.field("data_offsets"@) == Some(JsonModel::List(numbers(seq![start, end]))),
    ensures
        safetensors::info_of(v) == Some(InfoModel { dtype, shape: dims, start, end }),
{
    numbers_are_sizes(dims);
    numbers_are_sizes(seq![start, end]);
}

/// A tensor without one of its fields, or with other than two offsets, cannot be told.
pub proof fn tensor_needs_its_fields(v: JsonModel, offsets: Seq<usize>)
    requires
        v is Object,
    ensures
        v.field("dtype"@) is None ==> safetensors::info_of(v) is None,
        v.field("shape"@) is None ==> safetensors::info_of(v) is None,
        v.field("data_offsets"@) is None ==> safetensors::info_of(v) is None,
        v.field("data_offsets"@) == Some(JsonModel::List(numbers(offsets))) && offsets.len() != 2 ==> safetensors::info_of(v) is None,
{
    numbers_are_sizes(offsets);
}

/// A header lists the tensors in the order in which it names them; a name that comes again replaces
/// the tensor of that name.
pub proof fn header_lists_tensors_in_order(entries: Seq<(Seq<char>, JsonModel)>, before: HeaderModel, name: Seq<char>, v: JsonModel, info: InfoModel, k: int)
    requires
        safetensors::header_from(entries) == Some(before),
        safetensors::info_of(v) == Some(info),
        name != "__metadata__"@,
        0 <= k <= before.tensors.len(),
        k < before.tensors.len() ==> before.tensors[k].0 == name,
        forall|i: int| 0 <= i < k ==> (#[trigger] before.tensors[i]).0 != name,
    ensures
        safetensors::header_from(entries.push((name, v))) matches Some(h) && {
            &&& h.metadata == before.metadata
            &&& k == before.tensors.len() ==> h.tensors == before.tensors.push((name, info))
            &&& k < before.tensors.len() ==> h.tensors == before.tensors.update(k, (name, info))
        },
{
    assert(entries.push((name, v)).drop_last() =~= entries);
    first_place(before.tensors, name, k);
}

proof fn first_place(list: Seq<(Seq<char>, InfoModel)>, name: Seq<char>, k: int)
    requires
        0 <= k <= list.len(),
        k < list.len() ==> list[k].0 == name,
        forall|i: int| 0 <= i < k ==> (#[trigger] list[i]).0 != name,
    ensures
        safetensors::place_of(list, name) == k,
    decreases list.len(),
{
    if k > 0 {
        assert(list[0].0 != name);
        let rest = list.drop_first();
        assert forall|i: int| 0 <= i < k - 1 implies (#[trigger] rest[i]).0 != name by {
            assert(rest[i] == list[i + 1]);
        }
        first_place(rest, name, k - 1);
    }
}

/// A header with something that is neither a tensor nor metadata is none.
pub proof fn header_lists_tensors_alone(entries: Seq<(Seq<char>, JsonModel)>, name: Seq<char>, v: JsonModel)
    requires
        safetensors::info_of(v) is None,
        name != "__metadata__"@,
    ensures
        safetensors::header_from(entries.push((name, v))) is None,
{
    assert(entries.push((name, v)).drop_last() =~= entries);
}

/// Texts of a header.
pub open spec fn named_texts(list: Seq<(Seq<char>, Seq<char>)>) -> Seq<(Seq<char>, JsonModel)> {
    Seq::new(list.len(), |i: int| (list[i].0, JsonModel::Text(list[i].1)))
}

proof fn texts_are_texts(list: Seq<(Seq<char>, Seq<char>)>)
    ensures
        safetensors::texts_of(named_texts(list)) == Some(list),
    decreases list.len(),
{
    if list.len() > 0 {
        let front = list.drop_last();
        texts_are_texts(front);
        assert(named_texts(list).drop_last() =~= named_texts(front));
        assert(front.push(list.last()) =~= list);
    } else {
        assert(list =~= Seq::<(Seq<char>, Seq<char>)>::empty());
    }
}

/// The texts under `__metadata__` are no tensor.
pub proof fn metadata_is_no_tensor(entries: Seq<(Seq<char>, JsonModel)>, before: HeaderModel, list: Seq<(Seq<char>, Seq<char>)>)
    requires
        safetensors::header_from(entries) == Some(before),
    ensures
        safetensors::header_from(entries.push(("__metadata__"@, JsonModel::Object(named_texts(list))))) == Some(
            HeaderModel { tensors: before.tensors, metadata: list },
        ),
        safetensors::header_from(Seq::empty()) == Some(HeaderModel { tensors: Seq::empty(), metadata: Seq::empty() }),
{
    let e = ("__metadata__"@, JsonModel::Object(named_texts(list)));
    assert(entries.push(e).drop_last() =~= entries);
    texts_are_texts(list);
}

/// A file is the length of its header in eight bytes, the lowest first, the header and the data.
pub proof fn file_is_header_and_data(header: Seq<u8>, data: Seq<u8>, short: Seq<char>, beyond: Seq<char>, r: Result<HeaderModel, LoadError>)
    requires
        header.len() <= u64::MAX,
        safetensors::opens(filed::low_first(header.len() as int, 8) + header + data, short, beyond, r),
    ensures
        safetensors::body(filed::low_first(header.len() as int, 8) + header + data) == data,
        json::bytes_tree(header) matches Ok(v) ==> (r matches Ok(h) ==> safetensors::header_of(v) == Some(h)) && (r is Err
            ==> safetensors::header_of(v) is None),
        json::bytes_tree(header) is Err ==> r is Err,
{
    let n = header.len() as int;
    let front = filed::low_first(n, 8);
    let file = front + header + data;
    filed::low_first_len(n, 8);
    assert(filed::stands(file, 0, front)) by {
        reveal(filed::stands);
    }
    filed::eight_read_back(file, 0, n);
    assert(safetensors::header_bytes(file) =~= header);
    assert(safetensors::body(file) =~= data);
}

/// A file that is too short for the length of its header, or for its header, is refused.
pub proof fn short_files_are_refused(data: Seq<u8>, n: u64, short: Seq<char>, beyond: Seq<char>, r: Result<HeaderModel, LoadError>)
    requires
        safetensors::opens(data, short, beyond, r),
    ensures
        data.len() < 8 ==> (r matches Err(LoadError::InvalidFormat(m)) && m@ == short),
        filed::stands(data, 0, filed::low_first(n as int, 8)) && data.len() < 8 + n ==> (r matches Err(LoadError::InvalidFormat(m)) && m@ == beyond),
{
    if filed::stands(data, 0, filed::low_first(n as int, 8)) {
        filed::eight_read_back(data, 0, n as int);
    }
}

/// A tensor that the header does not name, that does not lie in the data, or that is stored in a way
/// that is not known, is refused, and told why.
pub proof fn tensors_are_refused_with_reasons(h: HeaderModel, data: Seq<u8>, name: Seq<char>, k: int, r: Result<Tensor, LoadError>)
    requires
        safetensors::names_differ(h.tensors),
        safetensors::loads(h, data, name, r),
        0 <= k < h.tensors.len(),
    ensures
        (forall|i: int| 0 <= i < h.tensors.len() ==> (#[trigger] h.tensors[i]).0 != name) ==> (r matches Err(LoadError::InvalidFormat(m)) && m@
            == "Tensor '"@ + name + "' not found"@),
        ({
            let info = h.tensors[k].1;
            &&& h.tensors[k].0 == name && (info.end < info.start || data.len() < info.end) ==> (r matches Err(
                LoadError::OffsetOutOfBounds { name: n, start, end, data_len },
            ) && n@ == name && start == info.start && end == info.end && data_len == data.len())
            &&& h.tensors[k].0 == name && info.start <= info.end <= data.len() && safetensors::stored_as(info.dtype) is None ==> (r matches Err(
                LoadError::UnsupportedDtype(m),
            ) && m@ == info.dtype)
            &&& h.tensors[k].0 == name && info.start <= info.end <= data.len() && safetensors::stored_as(info.dtype) is Some ==> r is Ok
        }),
{
    safetensors::found_by_name(h.tensors, name);
    if h.tensors[k].0 == name {
        safetensors::found_at_its_place(h.tensors, k);
    }
}

} // verus!
