//! The files a launch opens: the arguments that name existing `.mp4` or `.mov` files.
use vstd::prelude::*;
use crate::playlist::{is_supported_video, is_supported_video_file};
use crate::recent::strings_view;

verus! {

/// The arguments that exist (`exists[i]` tells of `args[i]`) and name supported videos, in order.
pub open spec fn launch_selection(args: Seq<Seq<char>>, exists: Seq<bool>) -> Seq<Seq<char>>
    decreases args.len(),
{
    if args.len() == 0 || exists.len() != args.len() {
        Seq::empty()
    } else {
        let rest = launch_selection(args.drop_last(), exists.drop_last());
        if exists.last() && is_supported_video(args.last()) {
            rest.push(args.last())
        } else {
            rest
        }
    }
}

/// The files that a launch with `args` opens.
pub fn select_launch_paths(args: &Vec<String>, exists: &Vec<bool>) -> (r: Vec<String>)
    requires
        args.len() == exists.len(),
    ensures
        strings_view(r@) == launch_selection(strings_view(args@), exists@),
{
    let mut r: Vec<String> = Vec::new();
    let mut i: usize = 0;
    while i < args.len()
        invariant
            i <= args.len() == exists.len(),
            strings_view(r@) == launch_selection(strings_view(args@.take(i as int)), exists@.take(i as int)),
        decreases args.len() - i,
    {
        let ghost prev = strings_view(args@.take(i as int));
        let ghost next = strings_view(args@.take(i + 1));
        assert(next =~= prev.push(args@[i as int]@));
        assert(next.drop_last() =~= prev);
        assert(exists@.take(i + 1).drop_last() =~= exists@.take(i as int));
        if exists[i] && is_supported_video_file(args[i].as_str()) {
            let c = args[i].clone();
            assert(strings_view(r@.push(c)) =~= strings_view(r@).push(c@));
            r.push(c);
        }
        i = i + 1;
    }
    assert(args@.take(args.len() as int) =~= args@);
    assert(exists@.take(exists.len() as int) =~= exists@);
    r
}

} // verus!
