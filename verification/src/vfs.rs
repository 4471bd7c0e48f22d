//! The virtual-filesystem mapper: it rewrites virtual paths, whose first
//! component names a mount, into real filesystem paths and back.
//!
//! The mapper is immutable after configuration load. Rewriting a virtual
//! path fails on an unknown mount name; rewriting a real path fails when it
//! lies under no mount root.

use vstd::prelude::*;

verus! {

use vstd::string::StrSliceExecFns;
use vstd::string::StringExecFns;
use crate::Error;
use crate::strings::{codes, is_prefix, str_eq, find_char, path_join, prefix_str};

/// A mount point: a virtual name paired with the real root it stands for.
pub struct MountPoint {
    pub name: String,
    pub real: String,
}

/// The mathematical value of a mount point.
pub struct MountV {
    pub name: Seq<char>,
    pub real: Seq<char>,
}

impl View for MountPoint {
    type V = MountV;

    open spec fn view(&self) -> MountV {
        MountV { name: self.name@, real: self.real@ }
    }
}

/// The characters of a virtual path before its first separator.
pub open spec fn head_of(vp: Seq<char>) -> Seq<char>
    decreases vp.len(),
{
    if vp.len() == 0 {
        vp
    } else if vp[0] == '/' {
        Seq::empty()
    } else {
        seq![vp[0]] + head_of(vp.drop_first())
    }
}

/// The characters of a virtual path after its first separator, if the path
/// has one.
pub open spec fn rest_of(vp: Seq<char>) -> Option<Seq<char>>
    decreases vp.len(),
{
    if vp.len() == 0 {
        None
    } else if vp[0] == '/' {
        Some(vp.drop_first())
    } else {
        rest_of(vp.drop_first())
    }
}

/// The first mount whose name equals `name`, if any.
pub open spec fn mount_lookup(mounts: Seq<MountV>, name: Seq<char>) -> Option<MountV>
    decreases mounts.len(),
{
    if mounts.len() == 0 {
        None
    } else if mounts[0].name == name {
        Some(mounts[0])
    } else {
        mount_lookup(mounts.drop_first(), name)
    }
}

/// The real path strictly under the mount root `real` at the relative
/// position that `rp` reaches, when `rp` lies below `real`.
pub open spec fn strictly_under(root: Seq<char>, rp: Seq<char>) -> bool {
    rp.len() > root.len() + 1 && is_prefix(codes(root), codes(rp)) && rp[root.len() as int]
        == '/'
}

/// The real path a virtual path names, if its first component is a known
/// mount name.
pub open spec fn vtr_spec(mounts: Seq<MountV>, vp: Seq<char>) -> Option<Seq<char>> {
    match mount_lookup(mounts, head_of(vp)) {
        None => None,
        Some(m) => match rest_of(vp) {
            Some(rest) => if rest.len() > 0 {
                Some(m.real + seq!['/'] + rest)
            } else {
                Some(m.real)
            },
            None => Some(m.real),
        },
    }
}

/// The virtual form of a real path under the first mount whose root it
/// equals or lies under, if any.
pub open spec fn rtv_spec(mounts: Seq<MountV>, rp: Seq<char>) -> Option<Seq<char>>
    decreases mounts.len(),
{
    if mounts.len() == 0 {
        None
    } else if rp == mounts[0].real {
        Some(mounts[0].name)
    } else if strictly_under(mounts[0].real, rp) {
        Some(mounts[0].name + seq!['/'] + rp.skip(mounts[0].real.len() + 1 as int))
    } else {
        rtv_spec(mounts.drop_first(), rp)
    }
}

/// A real path has a virtual form.
pub open spec fn virtualizable(mounts: Seq<MountV>, rp: Seq<char>) -> bool {
    rtv_spec(mounts, rp) is Some
}

proof fn lemma_head_rest(vp: Seq<char>, i: int)
    requires
        0 <= i < vp.len(),
        vp[i] == '/',
        forall|k: int| 0 <= k < i ==> vp[k] != '/',
    ensures
        head_of(vp) == vp.take(i),
        rest_of(vp) == Some(vp.skip(i + 1)),
    decreases i,
{
    if i == 0 {
        assert(head_of(vp) =~= vp.take(0));
        assert(vp.drop_first() =~= vp.skip(1));
    } else {
        lemma_head_rest(vp.drop_first(), i - 1);
        assert(seq![vp[0]] + vp.drop_first().take(i - 1) =~= vp.take(i));
        assert(vp.drop_first().skip(i) =~= vp.skip(i + 1));
    }
}

pub proof fn lemma_no_sep(vp: Seq<char>)
    requires
        forall|k: int| 0 <= k < vp.len() ==> vp[k] != '/',
    ensures
        head_of(vp) == vp,
        rest_of(vp) == Option::<Seq<char>>::None,
    decreases vp.len(),
{
    if vp.len() > 0 {
        lemma_no_sep(vp.drop_first());
        assert(seq![vp[0]] + vp.drop_first() =~= vp);
    }
}

/// The configured set of mount points. Immutable for the life of the
/// process once built.
pub struct Vfs {
    mounts: Vec<MountPoint>,
}

impl View for Vfs {
    type V = Seq<MountV>;

    closed spec fn view(&self) -> Seq<MountV> {
        Seq::new(self.mounts@.len(), |i: int| self.mounts@[i]@)
    }
}

impl Vfs {
    /// A mapper over the given mounts, looked up in the given order.
    pub fn new(mounts: Vec<MountPoint>) -> (r: Vfs)
        ensures
            r@ == Seq::new(mounts@.len(), |i: int| mounts@[i]@),
    {
        Vfs { mounts }
    }

    /// The configured mount points, in lookup order.
    pub fn mount_points(&self) -> (r: &Vec<MountPoint>)
        ensures
            r@.len() == self@.len(),
            forall|i: int| 0 <= i < r@.len() ==> r@[i]@ == self@[i],
    {
        &self.mounts
    }

    /// Splits the virtual path at its first component, looks up the mount
    /// of that name and appends the remainder to its real root. Fails with
    /// `UnknownMount` when the first component names no mount.
    #[verifier::loop_isolation(false)]
    pub fn virtual_to_real(&self, vp: &str) -> (r: Result<String, Error>)
        ensures
            match r {
                Ok(s) => vtr_spec(self@, vp@) == Some(s@),
                Err(e) => e == Error::UnknownMount && vtr_spec(self@, vp@) is None,
            },
    {
        let vp_len = vp.unicode_len();
        let sep = find_char(vp, '/');
        let head: &str = match sep {
            Some(i) => {
                proof {
                    lemma_head_rest(vp@, i as int);
                }
                vp.substring_char(0, i)
            },
            None => {
                proof {
                    lemma_no_sep(vp@);
                }
                vp
            },
        };
        assert(head@ == head_of(vp@));
        let mut j: usize = 0;
        let n = self.mounts.len();
        proof {
            assert(self@.skip(0) =~= self@);
        }
        while j < n
            invariant
                n == self.mounts@.len(),
                j <= n,
                head@ == head_of(vp@),
                mount_lookup(self@, head@) == mount_lookup(self@.skip(j as int), head@),
            decreases n - j,
        {
            let m = &self.mounts[j];
            proof {
                assert(self@.skip(j as int)[0] == self@[j as int]);
                assert(self@.skip(j as int).drop_first() =~= self@.skip(j as int + 1));
            }
            if str_eq(m.name.as_str(), head) {
                assert(mount_lookup(self@, head@) == Some(self@[j as int]));
                match sep {
                    Some(i) => {
                        assert(i < vp_len);
                        if i + 1 < vp_len {
                            let rest = vp.substring_char(i + 1, vp_len);
                            let joined = path_join(m.real.as_str(), rest);
                            return Ok(joined);
                        } else {
                            return Ok(m.real.clone());
                        }
                    },
                    None => {
                        return Ok(m.real.clone());
                    },
                }
            }
            j = j + 1;
        }
        assert(self@.skip(n as int) =~= Seq::<MountV>::empty());
        Err(Error::UnknownMount)
    }

    /// Scans the mounts in order and rewrites `rp` under the first mount
    /// whose real root it equals or lies under. Fails with `NotUnderMount`
    /// when no mount root is a prefix of `rp`.
    #[verifier::loop_isolation(false)]
    pub fn real_to_virtual(&self, rp: &str) -> (r: Result<String, Error>)
        ensures
            match r {
                Ok(s) => rtv_spec(self@, rp@) == Some(s@),
                Err(e) => e == Error::NotUnderMount && rtv_spec(self@, rp@) is None,
            },
    {
        let rp_len = rp.unicode_len();
        let mut j: usize = 0;
        let n = self.mounts.len();
        proof {
            assert(self@.skip(0) =~= self@);
        }
        while j < n
            invariant
                n == self.mounts@.len(),
                rp_len == rp@.len(),
                j <= n,
                rtv_spec(self@, rp@) == rtv_spec(self@.skip(j as int), rp@),
            decreases n - j,
        {
            let m = &self.mounts[j];
            proof {
                assert(self@.skip(j as int)[0] == self@[j as int]);
                assert(self@.skip(j as int).drop_first() =~= self@.skip(j as int + 1));
            }
            if str_eq(rp, m.real.as_str()) {
                return Ok(m.name.clone());
            }
            let real_len = m.real.as_str().unicode_len();
            if real_len < rp_len && real_len + 1 < rp_len && prefix_str(m.real.as_str(), rp, false)
                && rp.get_char(real_len) == '/' {
                let rest = rp.substring_char(real_len + 1, rp_len);
                let joined = path_join(m.name.as_str(), rest);
                assert(joined@ == self@[j as int].name + seq!['/'] + rp@.skip(
                    self@[j as int].real.len() + 1 as int,
                ));
                return Ok(joined);
            }
            assert(!strictly_under(self@[j as int].real, rp@));
            j = j + 1;
        }
        assert(self@.skip(n as int) =~= Seq::<MountV>::empty());
        Err(Error::NotUnderMount)
    }
}

} // verus!
