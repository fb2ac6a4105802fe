//! Merging one configuration value into another: records merge field by
//! field, anything else is replaced.

use vstd::prelude::*;

verus! {

/// A configuration value as the merge reads it: a record of named fields,
/// or any other value, kept whole as its text.
#[derive(Debug, PartialEq, Eq)]
pub enum ConfigValue {
    Struct(Vec<(String, ConfigValue)>),
    Other(String),
}

/// The plain value of a `ConfigValue`.
pub enum ValueView {
    Struct(Seq<(Seq<char>, ValueView)>),
    Other(Seq<char>),
}

/// The plain value of a configuration value.
pub open spec fn view_of(v: ConfigValue) -> ValueView
    decreases v,
{
    match v {
        ConfigValue::Struct(fs) => ValueView::Struct(fields_view(fs@)),
        ConfigValue::Other(s) => ValueView::Other(s@),
    }
}

/// The plain values of some fields.
pub open spec fn fields_view(fs: Seq<(String, ConfigValue)>) -> Seq<(Seq<char>, ValueView)>
    decreases fs,
{
    if fs.len() == 0 {
        seq![]
    } else {
        seq![(fs[0].0@, view_of(fs[0].1))] + fields_view(fs.drop_first())
    }
}

/// The first field named `n`.
pub open spec fn field_index(fs: Seq<(Seq<char>, ValueView)>, n: Seq<char>, i: int) -> Option<int>
    decreases fs.len() - i,
{
    if i < 0 || i >= fs.len() {
        None
    } else if fs[i].0 == n {
        Some(i)
    } else {
        field_index(fs, n, i + 1)
    }
}

/// `overlay` merged into `base`: where both are records, each field of the
/// overlay, in order, is merged into the first field of that name, or added
/// at the end where there is none; otherwise the overlay replaces the base.
pub open spec fn merged(base: ValueView, overlay: ValueView) -> ValueView
    decreases overlay,
{
    match overlay {
        ValueView::Struct(of) => match base {
            ValueView::Struct(bf) => ValueView::Struct(merge_fields(bf, of)),
            ValueView::Other(_) => overlay,
        },
        ValueView::Other(_) => overlay,
    }
}

/// The fields `of` merged, in order, into the fields `bf`.
pub open spec fn merge_fields(
    bf: Seq<(Seq<char>, ValueView)>,
    of: Seq<(Seq<char>, ValueView)>,
) -> Seq<(Seq<char>, ValueView)>
    decreases of,
{
    if of.len() == 0 {
        bf
    } else {
        let n = of[0].0;
        let x = of[0].1;
        let next = match field_index(bf, n, 0) {
            Some(k) => if 0 <= k < bf.len() {
                bf.update(k, (bf[k].0, merged(bf[k].1, x)))
            } else {
                bf
            },
            None => bf.push((n, x)),
        };
        merge_fields(next, of.drop_first())
    }
}

proof fn lemma_fields_view(fs: Seq<(String, ConfigValue)>)
    ensures
        fields_view(fs).len() == fs.len(),
        forall|k: int|
            0 <= k < fs.len() ==> #[trigger] fields_view(fs)[k] == (fs[k].0@, view_of(fs[k].1)),
    decreases fs.len(),
{
    if fs.len() > 0 {
        lemma_fields_view(fs.drop_first());
        assert forall|k: int| 0 <= k < fs.len() implies #[trigger] fields_view(fs)[k] == (
            fs[k].0@,
            view_of(fs[k].1),
        ) by {
            if k > 0 {
                assert(fields_view(fs)[k] == fields_view(fs.drop_first())[k - 1]);
                assert(fs.drop_first()[k - 1] == fs[k]);
            }
        }
    }
}

/// Two field lists with the same plain values pointwise have the same view.
proof fn lemma_fields_view_eq(a: Seq<(String, ConfigValue)>, v: Seq<(Seq<char>, ValueView)>)
    requires
        a.len() == v.len(),
        forall|k: int| 0 <= k < a.len() ==> (a[k].0@, view_of(a[k].1)) == #[trigger] v[k],
    ensures
        fields_view(a) == v,
{
    lemma_fields_view(a);
    assert(fields_view(a) =~= v);
}

/// The first field named `name`.
fn find_field(fs: &Vec<(String, ConfigValue)>, name: &String) -> (r: Option<usize>)
    ensures
        match r {
            Some(k) => field_index(fields_view(fs@), name@, 0) == Some(k as int) && k < fs@.len(),
            None => field_index(fields_view(fs@), name@, 0) is None,
        },
{
    proof {
        lemma_fields_view(fs@);
    }
    let ghost fv = fields_view(fs@);
    let mut i: usize = 0;
    while i < fs.len()
        invariant
            i <= fs@.len(),
            fv == fields_view(fs@),
            fv.len() == fs@.len(),
            forall|k: int| 0 <= k < fs@.len() ==> #[trigger] fv[k] == (fs@[k].0@, view_of(fs@[k].1)),
            field_index(fv, name@, 0) == field_index(fv, name@, i as int),
        decreases fs@.len() - i,
    {
        if crate::text::chars_eq(
            &crate::text::chars_of(fs[i].0.as_str()),
            &crate::text::chars_of(name.as_str()),
        ) {
            assert(fv[i as int].0 == name@);
            return Some(i);
        }
        assert(fv[i as int].0 != name@);
        i = i + 1;
    }
    None
}

/// A copy of a value.
pub fn copy_value(v: &ConfigValue) -> (r: ConfigValue)
    ensures
        view_of(r) == view_of(*v),
    decreases v,
{
    match v {
        ConfigValue::Other(s) => ConfigValue::Other(s.clone()),
        ConfigValue::Struct(fs) => {
            let mut out: Vec<(String, ConfigValue)> = Vec::new();
            let mut i: usize = 0;
            proof {
                lemma_fields_view(fs@);
                assert(decreases_to!(*v => (*v)->Struct_0));
                assert forall|k: int| 0 <= k < fs@.len() implies decreases_to!(*v => #[trigger] fs@[k].1) by {
                    assert(decreases_to!(*fs => fs@));
                    assert(decreases_to!(fs@ => fs@[k]));
                    assert(decreases_to!(fs@[k] => fs@[k].1));
                }
            }
            while i < fs.len()
                invariant
                    forall|k: int| 0 <= k < fs@.len() ==> decreases_to!(*v => #[trigger] fs@[k].1),
                    i <= fs@.len(),
                    out@.len() == i,
                    forall|k: int|
                        0 <= k < i ==> (#[trigger] out@[k]).0@ == fs@[k].0@ && view_of(out@[k].1)
                            == view_of(fs@[k].1),
                decreases fs@.len() - i,
            {
                let c = copy_value(&fs[i].1);
                out.push((fs[i].0.clone(), c));
                i = i + 1;
            }
            proof {
                lemma_fields_view(fs@);
                lemma_fields_view_eq(out@, fields_view(fs@));
            }
            ConfigValue::Struct(out)
        },
    }
}

/// `overlay` merged into `base` (see `merged`).
pub fn merge_values(base: ConfigValue, overlay: &ConfigValue) -> (r: ConfigValue)
    ensures
        view_of(r) == merged(view_of(base), view_of(*overlay)),
    decreases overlay,
{
    match overlay {
        ConfigValue::Other(_) => copy_value(overlay),
        ConfigValue::Struct(ofs) => match base {
            ConfigValue::Other(_) => copy_value(overlay),
            ConfigValue::Struct(bfs) => {
                let mut bfs = bfs;
                let ghost of = fields_view(ofs@);
                let ghost target = merge_fields(fields_view(bfs@), of);
                proof {
                    lemma_fields_view(ofs@);
                    assert(decreases_to!(*overlay => (*overlay)->Struct_0));
                    assert forall|k: int| 0 <= k < ofs@.len() implies decreases_to!(*overlay => #[trigger] ofs@[k].1) by {
                        assert(decreases_to!(*ofs => ofs@));
                        assert(decreases_to!(ofs@ => ofs@[k]));
                        assert(decreases_to!(ofs@[k] => ofs@[k].1));
                    }
                }
                assert(of.skip(0) =~= of);
                let mut i: usize = 0;
                while i < ofs.len()
                    invariant
                        forall|k: int| 0 <= k < ofs@.len() ==> decreases_to!(*overlay => #[trigger] ofs@[k].1),
                        i <= ofs@.len(),
                        of == fields_view(ofs@),
                        of.len() == ofs@.len(),
                        forall|k: int|
                            0 <= k < ofs@.len() ==> #[trigger] of[k] == (
                                ofs@[k].0@,
                                view_of(ofs@[k].1),
                            ),
                        merge_fields(fields_view(bfs@), of.skip(i as int)) == target,
                    decreases ofs@.len() - i,
                {
                    let ghost bv = fields_view(bfs@);
                    let ghost rest = of.skip(i as int);
                    proof {
                        lemma_fields_view(bfs@);
                        assert(rest[0] == of[i as int]);
                        assert(rest.drop_first() =~= of.skip(i + 1));
                    }
                    match find_field(&bfs, &ofs[i].0) {
                        Some(k) => {
                            let (n, v) = bfs.remove(k);
                            let nv = merge_values(v, &ofs[i].1);
                            bfs.insert(k, (n, nv));
                            proof {
                                lemma_fields_view_eq(
                                    bfs@,
                                    bv.update(k as int, (bv[k as int].0, merged(bv[k as int].1, of[i as int].1))),
                                );
                            }
                        },
                        None => {
                            let c = copy_value(&ofs[i].1);
                            bfs.push((ofs[i].0.clone(), c));
                            proof {
                                lemma_fields_view_eq(bfs@, bv.push(of[i as int]));
                            }
                        },
                    }
                    i = i + 1;
                }
                assert(of.skip(i as int) =~= Seq::<(Seq<char>, ValueView)>::empty());
                ConfigValue::Struct(bfs)
            },
        },
    }
}

/// Merges `overlay` into `base` (see `merged`).
pub fn deep_merge(base: &mut ConfigValue, overlay: &ConfigValue)
    ensures
        view_of(*final(base)) == merged(view_of(*old(base)), view_of(*overlay)),
{
    let mut b = ConfigValue::Other(String::new());
    std::mem::swap(&mut b, base);
    *base = merge_values(b, overlay);
}

} // verus!
