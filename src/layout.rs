use vstd::prelude::*;
use vstd::string::StrSliceExecFns;
use vstd::string::StringExecFns;
use crate::split::Split;
use crate::labels::{class_name, class_names, CLASS_COUNT};

verus! {

/// Whether position `i` holds the last `.` of `s`.
pub open spec fn is_last_dot(s: Seq<char>, i: int) -> bool {
    &&& 0 <= i < s.len()
    &&& s[i] == '.'
    &&& forall|j: int| i < j < s.len() ==> s[j] != '.'
}

/// A file name without its extension: everything before the last `.`, or the whole
/// name when it has none.
pub open spec fn stem(s: Seq<char>) -> Seq<char> {
    if exists|i: int| is_last_dot(s, i) {
        s.take(choose|i: int| is_last_dot(s, i))
    } else {
        s
    }
}

/// The label file of an image: its name with the extension replaced by `.txt`.
pub fn label_file_name(image_name: &str) -> (r: String)
    ensures
        r@ == stem(image_name@) + ".txt"@,
{
    let len = image_name.unicode_len();
    let mut k: usize = len;
    let mut found = false;
    while k > 0 && !found
        invariant
            k <= len,
            len == image_name@.len(),
            forall|j: int| k <= j < len ==> image_name@[j] != '.',
            found ==> k > 0 && image_name@[k - 1] == '.',
        decreases k + (if found { 0int } else { 1int }),
    {
        if image_name.get_char(k - 1) == '.' {
            found = true;
        } else {
            k -= 1;
        }
    }
    let cut: usize;
    if !found {
        cut = len;
        proof {
            assert(!exists|i: int| is_last_dot(image_name@, i));
            assert(image_name@.take(len as int) =~= image_name@);
        }
    } else {
        cut = k - 1;
        proof {
            assert(is_last_dot(image_name@, cut as int));
            let c = choose|i: int| is_last_dot(image_name@, i);
            assert(c == cut as int);
        }
    }
    let base = image_name.substring_char(0, cut);
    let mut r = String::from_str(base);
    r.append(".txt");
    r
}

/// `root` followed by `/`, the split's folder, the subfolder `kind` and `/`.
pub open spec fn split_dir(root: Seq<char>, split: Split, kind: Seq<char>) -> Seq<char> {
    root + "/"@ + split.folder_spec() + "/"@ + kind + "/"@
}

/// Where an image of `split` is copied to.
pub fn image_target(root: &str, split: Split, image_name: &str) -> (r: String)
    ensures
        r@ == split_dir(root@, split, "images"@) + image_name@,
{
    let mut r = String::from_str(root);
    r.append("/");
    r.append(split.folder());
    r.append("/");
    r.append("images");
    r.append("/");
    r.append(image_name);
    r
}

/// Where the label file of an image of `split` is written.
pub fn label_target(root: &str, split: Split, image_name: &str) -> (r: String)
    ensures
        r@ == split_dir(root@, split, "labels"@) + stem(image_name@) + ".txt"@,
{
    let file = label_file_name(image_name);
    let mut r = String::from_str(root);
    r.append("/");
    r.append(split.folder());
    r.append("/");
    r.append("labels");
    r.append("/");
    r.append(file.as_str());
    r
}

/// The places an image may be found in the source tree, in the order they are tried:
/// under `train`, `val`, then `test`.
pub fn image_sources(root: &str, image_name: &str) -> (r: Vec<String>)
    ensures
        r@.len() == 3,
        r@[0]@ == root@ + "/"@ + Split::Train.folder_spec() + "/"@ + image_name@,
        r@[1]@ == root@ + "/"@ + Split::Val.folder_spec() + "/"@ + image_name@,
        r@[2]@ == root@ + "/"@ + Split::Test.folder_spec() + "/"@ + image_name@,
{
    let mut r: Vec<String> = Vec::new();
    let splits = [Split::Train, Split::Val, Split::Test];
    let mut i: usize = 0;
    while i < 3
        invariant
            i <= 3,
            splits@ == seq![Split::Train, Split::Val, Split::Test],
            r@.len() == i,
            forall|j: int| 0 <= j < i ==> #[trigger] r@[j]@ == root@ + "/"@ + splits@[j].folder_spec() + "/"@ + image_name@,
        decreases 3 - i,
    {
        let mut p = String::from_str(root);
        p.append("/");
        p.append(splits[i].folder());
        p.append("/");
        p.append(image_name);
        r.push(p);
        i += 1;
    }
    r
}

/// Class names, each in single quotes, separated by `, `.
pub open spec fn quoted_list(names: Seq<Seq<char>>) -> Seq<char>
    decreases names.len(),
{
    if names.len() == 0 {
        Seq::empty()
    } else if names.len() == 1 {
        "'"@ + names[0] + "'"@
    } else {
        quoted_list(names.drop_last()) + ", '"@ + names.last() + "'"@
    }
}

/// The line of the manifest that gives the image folder of a split.
pub open spec fn yaml_path_line(root: Seq<char>, split: Split) -> Seq<char> {
    split.folder_spec() + ": "@ + root + "/"@ + split.folder_spec() + "/images\n"@
}

/// The training manifest: the three image folders, the class count and the class names.
pub open spec fn data_yaml_spec(root: Seq<char>) -> Seq<char> {
    yaml_path_line(root, Split::Train) + yaml_path_line(root, Split::Val) + yaml_path_line(
        root,
        Split::Test,
    ) + "\nnc: 10\nnames: ["@ + quoted_list(class_names()) + "]"@
}

/// Appends the manifest line of one split.
fn push_path_line(r: &mut String, root: &str, split: Split)
    ensures
        final(r)@ == old(r)@ + yaml_path_line(root@, split),
{
    r.append(split.folder());
    r.append(": ");
    r.append(root);
    r.append("/");
    r.append(split.folder());
    r.append("/images\n");
}

/// Builds the training manifest for an output tree rooted at `root`.
pub fn data_yaml(root: &str) -> (r: String)
    ensures
        r@ == data_yaml_spec(root@),
{
    let mut r = String::new();
    push_path_line(&mut r, root, Split::Train);
    push_path_line(&mut r, root, Split::Val);
    push_path_line(&mut r, root, Split::Test);
    r.append("\nnc: 10\nnames: [");
    let ghost head = r@;
    let mut i: usize = 0;
    while i < CLASS_COUNT
        invariant
            i <= CLASS_COUNT,
            class_names().len() == CLASS_COUNT,
            r@ == head + quoted_list(class_names().take(i as int)),
        decreases CLASS_COUNT - i,
    {
        let ghost before = r@;
        if i > 0 {
            r.append(", '");
        } else {
            r.append("'");
        }
        r.append(class_name(i));
        r.append("'");
        proof {
            let t = class_names().take(i + 1);
            assert(t.drop_last() =~= class_names().take(i as int));
            assert(t.last() == class_names()[i as int]);
            if i == 0 {
                assert(class_names().take(0) =~= Seq::<Seq<char>>::empty());
                assert(r@ =~= head + quoted_list(t));
            } else {
                assert(r@ =~= head + quoted_list(t));
            }
        }
        i += 1;
    }
    assert(class_names().take(CLASS_COUNT as int) =~= class_names());
    r.append("]");
    assert(r@ =~= data_yaml_spec(root@));
    r
}

} // verus!
