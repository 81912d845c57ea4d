//! The field filter: a per-type allow-list of field names (sparse fieldsets)
//! and an allow-list of relationship names to side-load (sparse includes).

use vstd::prelude::*;

verus! {

broadcast use {vstd::std_specs::vec::group_vec_axioms, vstd::seq::group_seq_axioms};

/// A per-type allow-list of field names. `None` means no restriction.
pub type QueryFields = Option<Vec<(String, Vec<String>)>>;

/// A filter configuration: which fields to serialize per type, and which
/// relationships to side-load. `None` always means "no restriction", which is
/// distinct from an empty list ("allow nothing").
#[derive(Debug, PartialEq, Eq)]
pub struct Query {
    pub fields: QueryFields,
    pub included: Option<Vec<String>>,
}

/// Model of [`QueryFields`].
pub type QueryFieldsModel = Option<Seq<(Seq<char>, Seq<Seq<char>>)>>;

/// Model of a [`Query`].
#[verifier::ext_equal]
pub struct QueryModel {
    pub fields: QueryFieldsModel,
    pub included: Option<Seq<Seq<char>>>,
}

/// The views of a sequence of strings, in order.
pub open spec fn string_views(s: Seq<String>) -> Seq<Seq<char>> {
    Seq::new(s.len(), |i: int| if 0 <= i < s.len() {
        s[i]@
    } else {
        Seq::empty()
    })
}

/// The model of a [`QueryFields`] value.
pub open spec fn query_fields_view(qf: Option<Vec<(String, Vec<String>)>>) -> QueryFieldsModel {
    match qf {
        Option::None => Option::None,
        Option::Some(entries) => Option::Some(
            Seq::new(entries@.len(), |i: int| if 0 <= i < entries@.len() {
                (entries@[i].0@, string_views(entries@[i].1@))
            } else {
                (Seq::<char>::empty(), Seq::<Seq<char>>::empty())
            }),
        ),
    }
}

/// The model of an optional string list.
pub open spec fn opt_string_list_view(l: Option<Vec<String>>) -> Option<Seq<Seq<char>>> {
    match l {
        Option::None => Option::None,
        Option::Some(names) => Option::Some(string_views(names@)),
    }
}

impl View for Query {
    type V = QueryModel;

    open spec fn view(&self) -> QueryModel {
        QueryModel {
            fields: query_fields_view(self.fields),
            included: opt_string_list_view(self.included),
        }
    }
}

/// The filter that restricts nothing.
pub open spec fn default_query_model() -> QueryModel {
    QueryModel { fields: Option::None, included: Option::None }
}

impl Default for Query {
    /// The filter that restricts nothing.
    fn default() -> (q: Query)
        ensures
            q@ == default_query_model(),
    {
        Query { fields: Option::None, included: Option::None }
    }
}

/// Whether `name` occurs in the list.
pub open spec fn str_in(names: Seq<Seq<char>>, name: Seq<char>) -> bool {
    exists|i: int| 0 <= i < names.len() && names[i] == name
}

/// The allow-list for type `ty`: the first entry with that key, if any.
pub open spec fn spec_fields_for(
    fs: Seq<(Seq<char>, Seq<Seq<char>>)>,
    ty: Seq<char>,
    from: int,
) -> Option<Seq<Seq<char>>>
    decreases fs.len() - from,
{
    if 0 <= from < fs.len() {
        if fs[from].0 == ty {
            Option::Some(fs[from].1)
        } else {
            spec_fields_for(fs, ty, from + 1)
        }
    } else {
        Option::None
    }
}

/// Whether a field named `field` of type `ty` passes the field filter:
/// no filter, or no entry for `ty`, or `field` on `ty`'s allow-list.
pub open spec fn spec_should_serialize(
    fields: QueryFieldsModel,
    ty: Seq<char>,
    field: Seq<char>,
) -> bool {
    match fields {
        Option::None => true,
        Option::Some(fs) => match spec_fields_for(fs, ty, 0) {
            Option::None => true,
            Option::Some(names) => str_in(names, field),
        },
    }
}

/// Whether a relationship named `field` passes the included filter:
/// no filter, or `field` on the allow-list (so an empty list includes nothing).
pub open spec fn spec_should_include(included: Option<Seq<Seq<char>>>, field: Seq<char>) -> bool {
    match included {
        Option::None => true,
        Option::Some(names) => str_in(names, field),
    }
}

/// If no entry before `from` has key `ty`, the lookup from 0 and the lookup
/// from `from` agree.
pub proof fn lemma_fields_for_skip(fs: Seq<(Seq<char>, Seq<Seq<char>>)>, ty: Seq<char>, from: int)
    requires
        0 <= from <= fs.len(),
        forall|j: int| 0 <= j < from ==> #[trigger] fs[j].0 != ty,
    ensures
        spec_fields_for(fs, ty, 0) == spec_fields_for(fs, ty, from),
    decreases from,
{
    if from > 0 {
        lemma_fields_for_skip(fs, ty, from - 1);
        assert(spec_fields_for(fs, ty, from - 1) == spec_fields_for(fs, ty, from));
    }
}

/// Whether `needle` occurs in `names`.
pub fn contains_string(names: &Vec<String>, needle: &String) -> (r: bool)
    ensures
        r == str_in(string_views(names@), needle@),
{
    let mut i: usize = 0;
    while i < names.len()
        invariant
            i <= names.len(),
            forall|j: int| 0 <= j < i as int ==> string_views(names@)[j] != needle@,
        decreases names.len() - i,
    {
        if names[i] == *needle {
            proof {
                assert(string_views(names@)[i as int] == needle@);
            }
            return true;
        }
        i = i + 1;
    }
    false
}

/// Decides the field filter for one field of one type.
#[verifier::loop_isolation(false)]
pub fn should_serialize_field(fields: &QueryFields, ty: &String, field: &String) -> (r: bool)
    ensures
        r == spec_should_serialize(query_fields_view(*fields), ty@, field@),
{
    match fields {
        Option::None => true,
        Option::Some(fs) => {
            let ghost fsm = query_fields_view(*fields)->0;
            let mut i: usize = 0;
            while i < fs.len()
                invariant
                    i <= fs.len(),
                    fsm == query_fields_view(*fields)->0,
                    fs@.len() == fsm.len(),
                    forall|j: int| 0 <= j < fs@.len() ==> #[trigger] fsm[j] == (
                        fs@[j].0@,
                        string_views(fs@[j].1@),
                    ),
                    forall|j: int| 0 <= j < i as int ==> #[trigger] fsm[j].0 != ty@,
                decreases fs.len() - i,
            {
                if fs[i].0 == *ty {
                    proof {
                        assert(query_fields_view(*fields) == Option::Some(fsm));
                        lemma_fields_for_skip(fsm, ty@, i as int);
                        assert(spec_fields_for(fsm, ty@, 0) == Option::Some(fsm[i as int].1));
                        assert(fsm[i as int].1 == string_views(fs@[i as int].1@));
                    }
                    return contains_string(&fs[i].1, field);
                }
                i = i + 1;
            }
            proof {
                lemma_fields_for_skip(fsm, ty@, fs@.len() as int);
            }
            true
        },
    }
}

/// The characters `s[from..to]` as an owned string.
fn span_to_string(s: &Vec<char>, from: usize, to: usize) -> (r: String)
    requires
        from <= to <= s@.len(),
{
    let mut out: Vec<char> = Vec::new();
    let mut i = from;
    while i < to
        invariant
            from <= i <= to <= s@.len(),
        decreases to - i,
    {
        out.push(s[i]);
        i = i + 1;
    }
    crate::json::chars_to_string(&out)
}

/// Splits `s[from..to]` on `sep` into owned strings, keeping empty pieces.
fn split_span(s: &Vec<char>, from: usize, to: usize, sep: char) -> (r: Vec<String>)
    requires
        from <= to <= s@.len(),
{
    let mut pieces: Vec<String> = Vec::new();
    let mut start = from;
    let mut i = from;
    while i < to
        invariant
            from <= start <= i <= to <= s@.len(),
        decreases to - i,
    {
        if s[i] == sep {
            pieces.push(span_to_string(s, start, i));
            start = i + 1;
        }
        i = i + 1;
    }
    pieces.push(span_to_string(s, start, to));
    pieces
}

impl Query {
    /// Builds a filter from a query string such as
    /// `include=a,b&fields[dog]=name,age`. An `include` parameter's value is
    /// split on commas into the included allow-list (so `include=` or
    /// `include=[]` allow nothing, since no relationship is named `[]` or
    /// the empty string); a `fields[T]` parameter's value becomes the
    /// allow-list for type `T`. Other parameters are ignored. Behavior on
    /// these inputs is pinned by the crate's tests.
    #[verifier::loop_isolation(false)]
    pub fn from_params(params: &str) -> (q: Query)
    {
        let chars = crate::json::str_to_chars(params);
        let include_key = String::from_str("include");
        let mut fields: Vec<(String, Vec<String>)> = Vec::new();
        let mut has_fields = false;
        let mut included: Option<Vec<String>> = Option::None;
        let n = chars.len();
        let mut seg_start: usize = 0;
        let mut i: usize = 0;
        loop
            invariant
                seg_start <= i <= n,
                n == chars@.len(),
            decreases n - i,
        {
            if i == n || chars[i] == '&' {
                let seg_end = i;
                let mut eq: usize = seg_start;
                while eq < seg_end && chars[eq] != '='
                    invariant
                        seg_start <= eq <= seg_end <= n,
                    decreases seg_end - eq,
                {
                    eq = eq + 1;
                }
                if eq < seg_end {
                    let key = span_to_string(&chars, seg_start, eq);
                    if key == include_key {
                        included = Option::Some(split_span(&chars, eq + 1, seg_end, ','));
                    } else if eq - seg_start >= 8 && chars[seg_start] == 'f' && chars[seg_start
                        + 1] == 'i' && chars[seg_start + 2] == 'e' && chars[seg_start + 3] == 'l'
                        && chars[seg_start + 4] == 'd' && chars[seg_start + 5] == 's' && chars[
                        seg_start + 6] == '[' && chars[eq - 1] == ']' {
                        let ty = span_to_string(&chars, seg_start + 7, eq - 1);
                        let names = split_span(&chars, eq + 1, seg_end, ',');
                        fields.push((ty, names));
                        has_fields = true;
                    }
                }
                if i == n {
                    break ;
                }
                seg_start = i + 1;
            }
            i = i + 1;
        }
        Query {
            fields: if has_fields {
                Option::Some(fields)
            } else {
                Option::None
            },
            included,
        }
    }
}

/// Decides the included filter for one relationship name.
pub fn should_include(included: &Option<Vec<String>>, field: &String) -> (r: bool)
    ensures
        r == spec_should_include(opt_string_list_view(*included), field@),
{
    match included {
        Option::None => true,
        Option::Some(names) => contains_string(names, field),
    }
}

} // verus!
