use vstd::prelude::*;

verus! {

/// The name of the PNG thumbnail of a file: the file's name with ".png"
/// added, or "cache-file.png" for a path without a file name.
pub open spec fn thumbnail_name(file_name: Option<Seq<char>>) -> Seq<char> {
    match file_name {
        Some(name) => name + ".png"@,
        None => "cache-file"@ + ".png"@,
    }
}

/// The file name under which the thumbnail of a video is written in the
/// thumbnail directory.
pub fn thumbnail_file_name(file_name: Option<&str>) -> (name: String)
    ensures
        name@ == thumbnail_name(
            match file_name {
                Some(s) => Some(s@),
                None => None,
            },
        ),
{
    let mut name = match file_name {
        Some(s) => String::from_str(s),
        None => String::from_str("cache-file"),
    };
    name.append(".png");
    name
}

} // verus!
