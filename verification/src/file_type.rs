//! Asset file types, recognised by the file name's extension.

use vstd::prelude::*;

verus! {

/// The asset file types the editor accepts.
#[derive(Clone, Copy, PartialEq, Eq, Structural, Hash, Debug)]
pub enum EFileType {
    Fbx,
    Glb,
    Blend,
    Dae,
    Jpeg,
    Jpg,
    Png,
    Exr,
    Hdr,
}

/// The file type a lowercase extension names.
pub open spec fn spec_file_type_of(e: Seq<char>) -> Option<EFileType> {
    if e.len() == 3 {
        if e[0] == 'f' && e[1] == 'b' && e[2] == 'x' {
            Some(EFileType::Fbx)
        } else if e[0] == 'g' && e[1] == 'l' && e[2] == 'b' {
            Some(EFileType::Glb)
        } else if e[0] == 'd' && e[1] == 'a' && e[2] == 'e' {
            Some(EFileType::Dae)
        } else if e[0] == 'j' && e[1] == 'p' && e[2] == 'g' {
            Some(EFileType::Jpg)
        } else if e[0] == 'p' && e[1] == 'n' && e[2] == 'g' {
            Some(EFileType::Png)
        } else if e[0] == 'e' && e[1] == 'x' && e[2] == 'r' {
            Some(EFileType::Exr)
        } else if e[0] == 'h' && e[1] == 'd' && e[2] == 'r' {
            Some(EFileType::Hdr)
        } else {
            None
        }
    } else if e.len() == 4 {
        if e[0] == 'j' && e[1] == 'p' && e[2] == 'e' && e[3] == 'g' {
            Some(EFileType::Jpeg)
        } else {
            None
        }
    } else if e.len() == 5 {
        if e[0] == 'b' && e[1] == 'l' && e[2] == 'e' && e[3] == 'n' && e[4] == 'd' {
            Some(EFileType::Blend)
        } else {
            None
        }
    } else {
        None
    }
}

/// Position just after the last dot of a path, if any dot is there.
pub open spec fn spec_after_last_dot(s: Seq<char>, upto: int) -> Option<int>
    decreases upto,
{
    if upto <= 0 {
        None
    } else if s[upto - 1] == '.' {
        Some(upto)
    } else {
        spec_after_last_dot(s, upto - 1)
    }
}

/// The file type a path's extension names: the part after the last dot.
pub open spec fn spec_file_type_of_path(s: Seq<char>) -> Option<EFileType> {
    match spec_after_last_dot(s, s.len() as int) {
        None => None,
        Some(p) => spec_file_type_of(s.subrange(p, s.len() as int)),
    }
}

impl EFileType {
    /// The file type of a path, by its extension after the last dot;
    /// `None` when there is no dot or the extension is unknown.
    pub fn from_path(path: &str) -> (r: Option<EFileType>)
        ensures
            r == spec_file_type_of_path(path@),
    {
        let n = path.unicode_len();
        let mut upto: usize = n;
        while upto > 0
            invariant
                n == path@.len(),
                0 <= upto <= n,
                spec_after_last_dot(path@, n as int) == spec_after_last_dot(path@, upto as int),
            decreases upto,
        {
            if path.get_char(upto - 1) == '.' {
                assert(path@[upto - 1] == '.');
                assert(spec_after_last_dot(path@, upto as int) == Some(upto as int));
                return Self::from_extension(path, upto, n);
            }
            upto = upto - 1;
        }
        assert(spec_after_last_dot(path@, 0) is None);
        None
    }

    /// The file type the extension at `[start, n)` of a path names.
    fn from_extension(path: &str, start: usize, n: usize) -> (r: Option<EFileType>)
        requires
            start <= n,
            n == path@.len(),
        ensures
            r == spec_file_type_of(path@.subrange(start as int, path@.len() as int)),
    {
        let ghost e = path@.subrange(start as int, path@.len() as int);
        let len = n - start;
        if len == 3 {
            let c0 = path.get_char(start);
            let c1 = path.get_char(start + 1);
            let c2 = path.get_char(start + 2);
            proof {
                assert(e[0] == c0 && e[1] == c1 && e[2] == c2);
            }
            if c0 == 'f' && c1 == 'b' && c2 == 'x' {
                Some(EFileType::Fbx)
            } else if c0 == 'g' && c1 == 'l' && c2 == 'b' {
                Some(EFileType::Glb)
            } else if c0 == 'd' && c1 == 'a' && c2 == 'e' {
                Some(EFileType::Dae)
            } else if c0 == 'j' && c1 == 'p' && c2 == 'g' {
                Some(EFileType::Jpg)
            } else if c0 == 'p' && c1 == 'n' && c2 == 'g' {
                Some(EFileType::Png)
            } else if c0 == 'e' && c1 == 'x' && c2 == 'r' {
                Some(EFileType::Exr)
            } else if c0 == 'h' && c1 == 'd' && c2 == 'r' {
                Some(EFileType::Hdr)
            } else {
                None
            }
        } else if len == 4 {
            let c0 = path.get_char(start);
            let c1 = path.get_char(start + 1);
            let c2 = path.get_char(start + 2);
            let c3 = path.get_char(start + 3);
            proof {
                assert(e[0] == c0 && e[1] == c1 && e[2] == c2 && e[3] == c3);
            }
            if c0 == 'j' && c1 == 'p' && c2 == 'e' && c3 == 'g' {
                Some(EFileType::Jpeg)
            } else {
                None
            }
        } else if len == 5 {
            let c0 = path.get_char(start);
            let c1 = path.get_char(start + 1);
            let c2 = path.get_char(start + 2);
            let c3 = path.get_char(start + 3);
            let c4 = path.get_char(start + 4);
            proof {
                assert(e[0] == c0 && e[1] == c1 && e[2] == c2 && e[3] == c3 && e[4] == c4);
            }
            if c0 == 'b' && c1 == 'l' && c2 == 'e' && c3 == 'n' && c4 == 'd' {
                Some(EFileType::Blend)
            } else {
                None
            }
        } else {
            None
        }
    }
}

} // verus!
