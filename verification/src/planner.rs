use vstd::prelude::*;
use vstd::arithmetic::div_mod::lemma_fundamental_div_mod_converse;
use crate::format::{
    effective_scales, scale_invariant, scale_views, single_scale, ImageFormat, Scale, ScaleView,
    UNIT_SCALE,
};
use crate::text::{chars_of, push_char, texts};

verus! {

/// The characters that a resource name is made of: small letters, digits
/// and the underscore.
pub open spec fn is_resource_char(c: char) -> bool {
    ('a' <= c && c <= 'z') || ('0' <= c && c <= '9') || c == '_'
}

/// What stands for `c` in a resource name: `c` itself where it may stand
/// there, the small letter for a capital one, and an underscore for
/// anything else.
pub open spec fn resource_char(c: char) -> char {
    if is_resource_char(c) {
        c
    } else if 'A' <= c && c <= 'Z' {
        ((c as u8 + 32) as u8) as char
    } else {
        '_'
    }
}

/// The resource name for an asset name: character by character.
pub open spec fn resource_name(name: Seq<char>) -> Seq<char> {
    Seq::new(name.len(), |i: int| resource_char(name[i]))
}

/// A resource name is made of resource characters only.
pub proof fn lemma_resource_name_legal(name: Seq<char>)
    ensures
        resource_name(name).len() == name.len(),
        forall|i: int| 0 <= i < name.len() ==> is_resource_char(#[trigger] resource_name(name)[i]),
{
}

/// A name made of resource characters only is its own resource name.
pub proof fn lemma_resource_name_fixed(name: Seq<char>)
    requires
        forall|i: int| 0 <= i < name.len() ==> is_resource_char(#[trigger] name[i]),
    ensures
        resource_name(name) == name,
{
    assert(resource_name(name) =~= name);
}

fn to_resource_char(c: char) -> (r: char)
    ensures
        r == resource_char(c),
{
    if (c >= 'a' && c <= 'z') || (c >= '0' && c <= '9') || c == '_' {
        c
    } else if c >= 'A' && c <= 'Z' {
        let code: u8 = c as u8;
        (code + 32) as char
    } else {
        '_'
    }
}

/// Turns an asset name into a resource name.
pub fn to_res_name(name: &str) -> (res: String)
    ensures
        res@ == resource_name(name@),
{
    let chars = chars_of(name);
    let mut res = String::new();
    let mut i: usize = 0;
    while i < chars.len()
        invariant
            i <= chars@.len(),
            chars@ == name@,
            res@ == resource_name(name@).take(i as int),
        decreases chars@.len() - i,
    {
        push_char(&mut res, to_resource_char(chars[i]));
        i += 1;
        assert(res@ =~= resource_name(name@).take(i as int));
    }
    assert(resource_name(name@).take(i as int) =~= resource_name(name@));
    res
}

/// One image to export at one scale.
#[derive(Clone, Debug, PartialEq, Eq)]
pub struct ExportTask {
    pub name: String,
    pub scale_label: String,
    pub scale_factor_milli: u32,
    pub format: ImageFormat,
    pub res_name: String,
}

pub struct TaskView {
    pub name: Seq<char>,
    pub scale_label: Seq<char>,
    pub scale_factor_milli: u32,
    pub format: ImageFormat,
    pub res_name: Seq<char>,
}

impl View for ExportTask {
    type V = TaskView;

    open spec fn view(&self) -> TaskView {
        TaskView {
            name: self.name@,
            scale_label: self.scale_label@,
            scale_factor_milli: self.scale_factor_milli,
            format: self.format,
            res_name: self.res_name@,
        }
    }
}

/// The views of the tasks of `v`, in order.
pub open spec fn task_views(v: Seq<ExportTask>) -> Seq<TaskView> {
    Seq::new(v.len(), |i: int| v[i]@)
}

/// The task that exports `name` at `scale`.
pub open spec fn task_for(name: Seq<char>, scale: ScaleView, format: ImageFormat) -> TaskView {
    TaskView {
        name,
        scale_label: scale.label,
        scale_factor_milli: scale.factor_milli,
        format,
        res_name: resource_name(name),
    }
}

/// The tasks for `names` at `scales`: name by name in the order given, and
/// for each name scale by scale. A scale-invariant format gets one task a
/// name, whatever the scales.
pub open spec fn planned(names: Seq<Seq<char>>, scales: Seq<ScaleView>, format: ImageFormat) -> Seq<
    TaskView,
> {
    let each = effective_scales(scales, format);
    Seq::new(
        names.len() * each.len(),
        |k: int| task_for(names[k / each.len() as int], each[k % each.len() as int], format),
    )
}

/// One task a name where the format is scale-invariant, whatever the
/// scales; else one task for every name and scale.
pub proof fn lemma_planned_len(names: Seq<Seq<char>>, scales: Seq<ScaleView>, format: ImageFormat)
    ensures
        scale_invariant(format) ==> planned(names, scales, format).len() == names.len(),
        !scale_invariant(format) ==> planned(names, scales, format).len() == names.len()
            * scales.len(),
{
    assert(names.len() * 1 == names.len());
}

/// The tasks keep the order of the names and, for one name, the order of
/// the scales: the task for name `i` at scale `j` stands after those of all
/// earlier names and of the earlier scales of name `i`.
pub proof fn lemma_planned_at(
    names: Seq<Seq<char>>,
    scales: Seq<ScaleView>,
    format: ImageFormat,
    i: int,
    j: int,
)
    requires
        0 <= i < names.len(),
        0 <= j < effective_scales(scales, format).len(),
    ensures
        0 <= i * effective_scales(scales, format).len() + j < planned(names, scales, format).len(),
        planned(names, scales, format)[i * effective_scales(scales, format).len() + j] == task_for(
            names[i],
            effective_scales(scales, format)[j],
            format,
        ),
{
    lemma_slot(i, j, names.len() as int, effective_scales(scales, format).len() as int);
}

/// Place `j` of group `i`, among `count` groups of `per` places each.
proof fn lemma_slot(i: int, j: int, count: int, per: int)
    requires
        0 <= i < count,
        0 <= j < per,
    ensures
        0 <= i * per + j < count * per,
        (i * per + j) / per == i,
        (i * per + j) % per == j,
{
    assert(0 <= i * per) by (nonlinear_arith)
        requires
            0 <= i,
            0 <= per,
    ;
    assert((i + 1) * per <= count * per) by (nonlinear_arith)
        requires
            i + 1 <= count,
            0 <= per,
    ;
    assert((i + 1) * per == i * per + per) by (nonlinear_arith);
    lemma_fundamental_div_mod_converse(i * per + j, per, i, j);
}

fn task_of(name: &String, scale: &Scale, format: ImageFormat) -> (task: ExportTask)
    ensures
        task@ == task_for(name@, scale@, format),
{
    ExportTask {
        name: name.clone(),
        scale_label: scale.label.clone(),
        scale_factor_milli: scale.factor_milli,
        format,
        res_name: to_res_name(name.as_str()),
    }
}

/// Plans the export of `names` at `scales` in `format`.
pub fn plan(names: &Vec<String>, scales: &Vec<Scale>, format: ImageFormat) -> (tasks: Vec<
    ExportTask,
>)
    ensures
        task_views(tasks@) == planned(texts(names@), scale_views(scales@), format),
{
    let mut single: Vec<Scale> = Vec::new();
    let each: &Vec<Scale> = if format.is_svg() {
        single.push(Scale { label: String::new(), factor_milli: UNIT_SCALE });
        &single
    } else {
        scales
    };
    assert(scale_views(each@) =~= effective_scales(scale_views(scales@), format));
    let ghost wanted = planned(texts(names@), scale_views(scales@), format);
    let ghost per = each@.len() as int;
    let mut tasks: Vec<ExportTask> = Vec::new();
    let mut i: usize = 0;
    while i < names.len()
        invariant
            i <= names@.len(),
            per == each@.len(),
            scale_views(each@) == effective_scales(scale_views(scales@), format),
            wanted == planned(texts(names@), scale_views(scales@), format),
            tasks@.len() == i * per,
            forall|k: int| 0 <= k < tasks@.len() ==> (#[trigger] tasks@[k])@ == wanted[k],
        decreases names@.len() - i,
    {
        let mut j: usize = 0;
        while j < each.len()
            invariant
                i < names@.len(),
                j <= each@.len(),
                per == each@.len(),
                scale_views(each@) == effective_scales(scale_views(scales@), format),
                wanted == planned(texts(names@), scale_views(scales@), format),
                tasks@.len() == i * per + j,
                forall|k: int| 0 <= k < tasks@.len() ==> (#[trigger] tasks@[k])@ == wanted[k],
            decreases each@.len() - j,
        {
            let task = task_of(&names[i], &each[j], format);
            proof {
                lemma_slot(i as int, j as int, names@.len() as int, per);
                assert(scale_views(each@)[j as int] == each@[j as int]@);
                assert(texts(names@)[i as int] == names@[i as int]@);
            }
            tasks.push(task);
            j += 1;
        }
        i += 1;
        assert(i * per == (i - 1) * per + per) by (nonlinear_arith);
    }
    assert(task_views(tasks@) =~= wanted);
    tasks
}

} // verus!
