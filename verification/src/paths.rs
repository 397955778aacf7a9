use vstd::prelude::*;
use vstd::string::StringExecFns;
use crate::format::{extension_of, scale_invariant, ImageFormat};
use crate::planner::ExportTask;

verus! {

/// The directory that images of `format` at the scale `label` go to: one
/// directory for a scale-invariant format, whatever the label, and else a
/// directory of its own for every label.
pub open spec fn drawable_dir(res_dir: Seq<char>, label: Seq<char>, format: ImageFormat) -> Seq<
    char,
> {
    if scale_invariant(format) {
        res_dir + "/drawable"@
    } else {
        res_dir + "/drawable-"@ + label
    }
}

/// The file that an image is placed at: its resource name and the format's
/// extension, inside `dir`.
pub open spec fn file_path(dir: Seq<char>, res_name: Seq<char>, format: ImageFormat) -> Seq<char> {
    dir + "/"@ + res_name + "."@ + extension_of(format)
}

/// The directory that the image of `task` goes to, below `res_dir`.
pub fn image_drawable_dir(res_dir: &String, task: &ExportTask) -> (dir: String)
    ensures
        dir@ == drawable_dir(res_dir@, task.scale_label@, task.format),
{
    let mut dir = res_dir.clone();
    if task.format.is_svg() {
        dir.append("/drawable");
    } else {
        dir.append("/drawable-");
        dir.append(task.scale_label.as_str());
    }
    dir
}

/// The file that the image of `task` is placed at, inside `dir`.
pub fn image_file_path(dir: &String, task: &ExportTask) -> (path: String)
    ensures
        path@ == file_path(dir@, task.res_name@, task.format),
{
    let mut path = dir.clone();
    path.append("/");
    path.append(task.res_name.as_str());
    path.append(".");
    let extension = task.format.extension();
    path.append(extension.as_str());
    path
}

} // verus!
