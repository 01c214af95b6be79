//! The kinematic structure of a robot description: its links, and the joints
//! that connect a parent link to a child link. Geometry, inertia and joint
//! limits are kept by the caller, by link and joint name.

use vstd::prelude::*;
use crate::text::{str_eq, texts};

verus! {

/// Joint type.
#[derive(Debug, Clone, Copy, PartialEq, Eq, Structural)]
pub enum JointType {
    /// Fixed joint (no motion)
    Fixed,
    /// Revolute joint (rotation with limits)
    Revolute,
    /// Continuous joint (rotation without limits)
    Continuous,
    /// Prismatic joint (linear motion)
    Prismatic,
    /// Floating joint (6 DOF)
    Floating,
    /// Planar joint (motion in XY plane)
    Planar,
}

/// A robot link.
#[derive(Debug)]
pub struct Link {
    /// Link name
    pub name: String,
}

impl Link {
    /// Create a new link.
    pub fn new(name: &str) -> (r: Link)
        ensures
            r.name@ == name@,
    {
        Link { name: name.to_owned() }
    }
}

/// A robot joint: which link it moves, relative to which.
#[derive(Debug)]
pub struct Joint {
    /// Joint name
    pub name: String,
    /// Joint type
    pub joint_type: JointType,
    /// Parent link name
    pub parent_link: String,
    /// Child link name
    pub child_link: String,
}

/// The value of a joint: name, type, parent link, child link.
pub open spec fn joint_model(j: Joint) -> (Seq<char>, JointType, Seq<char>, Seq<char>) {
    (j.name@, j.joint_type, j.parent_link@, j.child_link@)
}

impl Joint {
    /// Create a fixed joint.
    pub fn fixed(name: &str, parent: &str, child: &str) -> (r: Joint)
        ensures
            joint_model(r) == (name@, JointType::Fixed, parent@, child@),
    {
        Joint {
            name: name.to_owned(),
            joint_type: JointType::Fixed,
            parent_link: parent.to_owned(),
            child_link: child.to_owned(),
        }
    }
}

/// The parent link of `l`: that of the first joint, in `js`, whose child is
/// `l`.
pub open spec fn first_parent(js: Seq<(Seq<char>, JointType, Seq<char>, Seq<char>)>, l: Seq<char>) -> Option<
    Seq<char>,
>
    decreases js.len(),
{
    if js.len() == 0 {
        None
    } else if js[0].3 == l {
        Some(js[0].2)
    } else {
        first_parent(js.drop_first(), l)
    }
}

/// Following parent links from `l`, a link without parent is reached within
/// `n` steps.
pub open spec fn reaches_base(js: Seq<(Seq<char>, JointType, Seq<char>, Seq<char>)>, l: Seq<char>, n: nat) -> bool
    decreases n,
{
    match first_parent(js, l) {
        None => true,
        Some(p) => n > 0 && reaches_base(js, p, (n - 1) as nat),
    }
}

/// The links from `l` up through its parents, `l` first, at most `n` steps.
pub open spec fn walk_up(js: Seq<(Seq<char>, JointType, Seq<char>, Seq<char>)>, l: Seq<char>, n: nat) -> Seq<
    Seq<char>,
>
    decreases n,
{
    seq![l] + match first_parent(js, l) {
        None => Seq::<Seq<char>>::empty(),
        Some(p) => if n == 0 {
            Seq::<Seq<char>>::empty()
        } else {
            walk_up(js, p, (n - 1) as nat)
        },
    }
}

/// The names of a sequence of links.
pub open spec fn link_texts(s: Seq<Link>) -> Seq<Seq<char>> {
    s.map_values(|x: Link| x.name@)
}

/// The values of a sequence of joints.
pub open spec fn joint_models(s: Seq<Joint>) -> Seq<(Seq<char>, JointType, Seq<char>, Seq<char>)> {
    s.map_values(|x: Joint| joint_model(x))
}

/// The child links of `l`, in the order of the joints.
pub open spec fn children_of(js: Seq<(Seq<char>, JointType, Seq<char>, Seq<char>)>, l: Seq<char>) -> Seq<
    Seq<char>,
>
    decreases js.len(),
{
    if js.len() == 0 {
        Seq::empty()
    } else {
        let rest = children_of(js.drop_last(), l);
        if js.last().2 == l {
            rest.push(js.last().3)
        } else {
            rest
        }
    }
}

/// The kinematic structure of a robot.
#[derive(Debug)]
pub struct RobotDescription {
    /// Robot name
    pub name: String,
    /// Links, no name twice
    links: Vec<Link>,
    /// Joints, no name twice
    joints: Vec<Joint>,
    /// Root link name (link with no parent)
    pub root_link: Option<String>,
}

impl RobotDescription {
    /// The link names.
    pub closed spec fn spec_links(&self) -> Seq<Seq<char>> {
        link_texts(self.links@)
    }

    /// The joints, in the order they were first added.
    pub closed spec fn spec_joints(&self) -> Seq<(Seq<char>, JointType, Seq<char>, Seq<char>)> {
        joint_models(self.joints@)
    }

    /// The robot's name.
    pub closed spec fn spec_name(&self) -> Seq<char> {
        self.name@
    }

    /// The root link, if set.
    pub closed spec fn spec_root_link(&self) -> Option<Seq<char>> {
        match self.root_link {
            Some(s) => Some(s@),
            None => None,
        }
    }

    /// No link name and no joint name appears twice.
    pub closed spec fn wf(&self) -> bool {
        &&& link_texts(self.links@).no_duplicates()
        &&& joint_models(self.joints@).map_values(
            |j: (Seq<char>, JointType, Seq<char>, Seq<char>)| j.0,
        ).no_duplicates()
    }

    /// Create a new, empty robot description.
    pub fn new(name: &str) -> (r: RobotDescription)
        ensures
            r.wf(),
            r.spec_name() == name@,
            r.spec_links() == Seq::<Seq<char>>::empty(),
            r.spec_joints() == Seq::<(Seq<char>, JointType, Seq<char>, Seq<char>)>::empty(),
            r.spec_root_link() is None,
    {
        let r = RobotDescription {
            name: name.to_owned(),
            links: Vec::new(),
            joints: Vec::new(),
            root_link: None,
        };
        assert(r.spec_links() =~= Seq::<Seq<char>>::empty());
        assert(r.spec_joints() =~= Seq::<(Seq<char>, JointType, Seq<char>, Seq<char>)>::empty());
        r
    }

    /// Add a link, replacing one of the same name.
    pub fn insert_link(&mut self, link: Link)
        requires
            old(self).wf(),
        ensures
            final(self).wf(),
            final(self).spec_joints() == old(self).spec_joints(),
            final(self).spec_links().to_set() == old(self).spec_links().to_set().insert(link.name@),
            final(self).spec_name() == old(self).spec_name(),
            final(self).spec_root_link() == old(self).spec_root_link(),
    {
        let ghost s0 = link_texts(self.links@);
        let mut i: usize = 0;
        while i < self.links.len()
            invariant
                i <= self.links@.len(),
                s0 == link_texts(self.links@),
                forall|j: int| 0 <= j < i ==> s0[j] != link.name@,
                self.links@ == old(self).links@,
                self.joints@ == old(self).joints@,
                self.name == old(self).name,
                self.root_link == old(self).root_link,
                old(self).wf(),
            decreases self.links@.len() - i,
        {
            if str_eq(self.links[i].name.as_str(), link.name.as_str()) {
                let ghost nm = link.name@;
                self.links.set(i, link);
                proof {
                    assert(link_texts(self.links@) =~= s0);
                    assert(s0[i as int] == nm);
                    assert(s0.to_set() =~= s0.to_set().insert(nm));
                }
                return;
            }
            i = i + 1;
        }
        let ghost nm = link.name@;
        self.links.push(link);
        proof {
            let s1 = link_texts(self.links@);
            assert(s1 =~= s0.push(nm));
            assert forall|a: int, b: int| 0 <= a < s1.len() && 0 <= b < s1.len() && a != b implies s1[a] != s1[b] by {
                if a < s0.len() && b < s0.len() {
                    assert(s1[a] == s0[a] && s1[b] == s0[b]);
                }
            }
            assert forall|y: Seq<char>| #[trigger] s1.to_set().contains(y) <==> s0.to_set().insert(nm).contains(y) by {
                if s1.contains(y) {
                    let j = choose|j: int| 0 <= j < s1.len() && s1[j] == y;
                    if j < s0.len() {
                        assert(s0[j] == y);
                    }
                }
                if s0.contains(y) {
                    let j = choose|j: int| 0 <= j < s0.len() && s0[j] == y;
                    assert(s1[j] == y);
                }
                if y == nm {
                    assert(s1[s0.len() as int] == y);
                }
            }
            assert(s1.to_set() =~= s0.to_set().insert(nm));
        }
    }

    /// Add a joint, replacing one of the same name in its place; a new name
    /// is added last.
    pub fn insert_joint(&mut self, joint: Joint)
        requires
            old(self).wf(),
        ensures
            final(self).wf(),
            final(self).spec_links() == old(self).spec_links(),
            final(self).spec_name() == old(self).spec_name(),
            final(self).spec_root_link() == old(self).spec_root_link(),
            (exists|i: int|
                0 <= i < old(self).spec_joints().len() && old(self).spec_joints()[i].0 == joint.name@)
                ==> exists|i: int|
                0 <= i < old(self).spec_joints().len() && old(self).spec_joints()[i].0 == joint.name@
                    && final(self).spec_joints() == old(self).spec_joints().update(i, joint_model(joint)),
            !(exists|i: int|
                0 <= i < old(self).spec_joints().len() && old(self).spec_joints()[i].0 == joint.name@)
                ==> final(self).spec_joints() == old(self).spec_joints().push(joint_model(joint)),
    {
        let ghost s0 = joint_models(self.joints@);
        let ghost ns0 = s0.map_values(|j: (Seq<char>, JointType, Seq<char>, Seq<char>)| j.0);
        let mut i: usize = 0;
        while i < self.joints.len()
            invariant
                i <= self.joints@.len(),
                s0 == joint_models(self.joints@),
                ns0 == s0.map_values(|j: (Seq<char>, JointType, Seq<char>, Seq<char>)| j.0),
                forall|j: int| 0 <= j < i ==> s0[j].0 != joint.name@,
                self.links@ == old(self).links@,
                self.joints@ == old(self).joints@,
                self.name == old(self).name,
                self.root_link == old(self).root_link,
                old(self).wf(),
            decreases self.joints@.len() - i,
        {
            if str_eq(self.joints[i].name.as_str(), joint.name.as_str()) {
                let ghost jm = joint_model(joint);
                assert(s0[i as int].0 == jm.0);
                self.joints.set(i, joint);
                proof {
                    assert(joint_models(self.joints@) =~= s0.update(i as int, jm));
                    assert(joint_models(self.joints@).map_values(
                        |j: (Seq<char>, JointType, Seq<char>, Seq<char>)| j.0,
                    ) =~= ns0);
                }
                return;
            }
            i = i + 1;
        }
        let ghost jm = joint_model(joint);
        self.joints.push(joint);
        proof {
            let s1 = joint_models(self.joints@);
            assert(s1 =~= s0.push(jm));
            let ns1 = s1.map_values(|j: (Seq<char>, JointType, Seq<char>, Seq<char>)| j.0);
            assert(ns1 =~= ns0.push(jm.0));
            assert forall|a: int, b: int| 0 <= a < ns1.len() && 0 <= b < ns1.len() && a != b implies ns1[a] != ns1[b] by {
                if a < ns0.len() && b < ns0.len() {
                    assert(ns1[a] == ns0[a] && ns1[b] == ns0[b]);
                } else if a == ns0.len() {
                    assert(s0[b].0 != jm.0);
                } else {
                    assert(s0[a].0 != jm.0);
                }
            }
        }
    }

    /// Get all link names.
    pub fn link_names(&self) -> (r: Vec<String>)
        ensures
            texts(r@) == self.spec_links(),
    {
        let mut out: Vec<String> = Vec::new();
        let mut i: usize = 0;
        while i < self.links.len()
            invariant
                i <= self.links@.len(),
                out@.len() == i,
                texts(out@) == link_texts(self.links@).take(i as int),
            decreases self.links@.len() - i,
        {
            let ghost before = out@;
            out.push(self.links[i].name.clone());
            assert forall|j: int| 0 <= j < i implies out@[j] == before[j] by {}
            assert(texts(out@) =~= link_texts(self.links@).take(i as int + 1));
            i = i + 1;
        }
        assert(link_texts(self.links@).take(i as int) =~= link_texts(self.links@));
        out
    }

    /// Get all joint names.
    pub fn joint_names(&self) -> (r: Vec<String>)
        ensures
            texts(r@) == self.spec_joints().map_values(
                |j: (Seq<char>, JointType, Seq<char>, Seq<char>)| j.0,
            ),
    {
        let ghost want = self.spec_joints().map_values(
            |j: (Seq<char>, JointType, Seq<char>, Seq<char>)| j.0,
        );
        let mut out: Vec<String> = Vec::new();
        let mut i: usize = 0;
        while i < self.joints.len()
            invariant
                i <= self.joints@.len(),
                want == self.spec_joints().map_values(
                    |j: (Seq<char>, JointType, Seq<char>, Seq<char>)| j.0,
                ),
                out@.len() == i,
                texts(out@) == want.take(i as int),
            decreases self.joints@.len() - i,
        {
            let ghost before = out@;
            out.push(self.joints[i].name.clone());
            assert forall|j: int| 0 <= j < i implies out@[j] == before[j] by {}
            assert(texts(out@) =~= want.take(i as int + 1));
            i = i + 1;
        }
        assert(want.take(i as int) =~= want);
        out
    }

    /// The index of the first joint whose child is `link_name`.
    fn parent_joint_index(&self, link_name: &str) -> (r: Option<usize>)
        ensures
            match r {
                Some(i) => i < self.joints@.len() && first_parent(self.spec_joints(), link_name@)
                    == Some(self.spec_joints()[i as int].2) && self.spec_joints()[i as int].3
                    == link_name@ && forall|j: int|
                    0 <= j < i ==> self.spec_joints()[j].3 != link_name@,
                None => first_parent(self.spec_joints(), link_name@) is None,
            },
    {
        let ghost js = self.spec_joints();
        let mut i: usize = 0;
        assert(js.skip(0) =~= js);
        while i < self.joints.len()
            invariant
                i <= self.joints@.len(),
                js == self.spec_joints(),
                first_parent(js, link_name@) == first_parent(js.skip(i as int), link_name@),
                forall|j: int| 0 <= j < i ==> js[j].3 != link_name@,
            decreases self.joints@.len() - i,
        {
            assert(js.skip(i as int).drop_first() =~= js.skip(i as int + 1));
            if str_eq(self.joints[i].child_link.as_str(), link_name) {
                assert(js.skip(i as int)[0] == js[i as int]);
                return Some(i);
            }
            i = i + 1;
        }
        None
    }

    /// Find the parent link of a given link: that of the first joint whose
    /// child it is.
    pub fn parent_link(&self, link_name: &str) -> (r: Option<&str>)
        ensures
            match r {
                Some(p) => first_parent(self.spec_joints(), link_name@) == Some(p@),
                None => first_parent(self.spec_joints(), link_name@) is None,
            },
    {
        match self.parent_joint_index(link_name) {
            Some(i) => Some(self.joints[i].parent_link.as_str()),
            None => None,
        }
    }

    /// Find the joint connecting a child link to its parent: the first joint
    /// whose child it is.
    pub fn parent_joint(&self, link_name: &str) -> (r: Option<&Joint>)
        ensures
            match r {
                Some(j) => exists|i: int|
                    0 <= i < self.spec_joints().len() && self.spec_joints()[i] == joint_model(*j)
                        && j.child_link@ == link_name@ && forall|q: int|
                        0 <= q < i ==> self.spec_joints()[q].3 != link_name@,
                None => first_parent(self.spec_joints(), link_name@) is None,
            },
    {
        match self.parent_joint_index(link_name) {
            Some(i) => Some(&self.joints[i]),
            None => None,
        }
    }

    /// Get the child links of a given link, in the order of the joints.
    pub fn child_links(&self, link_name: &str) -> (r: Vec<&str>)
        ensures
            r@.map_values(|s: &str| s@) == children_of(self.spec_joints(), link_name@),
    {
        let ghost js = self.spec_joints();
        let mut out: Vec<&str> = Vec::new();
        let mut i: usize = 0;
        while i < self.joints.len()
            invariant
                i <= self.joints@.len(),
                js == self.spec_joints(),
                out@.map_values(|s: &str| s@) == children_of(js.take(i as int), link_name@),
            decreases self.joints@.len() - i,
        {
            assert(js.take(i as int + 1).drop_last() =~= js.take(i as int));
            let ghost before = out@;
            if str_eq(self.joints[i].parent_link.as_str(), link_name) {
                out.push(self.joints[i].child_link.as_str());
                assert(out@.map_values(|s: &str| s@) =~= before.map_values(|s: &str| s@).push(
                    js[i as int].3,
                ));
            }
            i = i + 1;
        }
        assert(js.take(i as int) =~= js);
        out
    }

    /// Whether following parent links from `link_name` reaches a link without
    /// parent within as many steps as there are joints.
    pub fn reaches_root(&self, link_name: &str) -> (r: bool)
        ensures
            r == reaches_base(self.spec_joints(), link_name@, self.spec_joints().len()),
    {
        let ghost js = self.spec_joints();
        let n = self.joints.len();
        let mut current: &str = link_name;
        let mut steps: usize = 0;
        loop
            invariant
                js == self.spec_joints(),
                n == js.len(),
                steps <= n,
                reaches_base(js, current@, (n - steps) as nat) == reaches_base(
                    js,
                    link_name@,
                    n as nat,
                ),
            decreases n - steps,
        {
            match self.parent_link(current) {
                None => {
                    return true;
                },
                Some(p) => {
                    if steps == n {
                        return false;
                    }
                    current = p;
                    steps = steps + 1;
                },
            }
        }
    }

    /// Get the kinematic chain from the root to a link: the link's ancestors,
    /// root first, then the link.
    pub fn chain_to_link(&self, link_name: &str) -> (r: Vec<String>)
        requires
            exists|n: nat| reaches_base(self.spec_joints(), link_name@, n),
        ensures
            texts(r@) == walk_up(
                self.spec_joints(),
                link_name@,
                choose|n: nat| reaches_base(self.spec_joints(), link_name@, n),
            ).reverse(),
    {
        let ghost js = self.spec_joints();
        let ghost n0 = choose|n: nat| reaches_base(js, link_name@, n);
        let ghost mut fuel: nat = n0;
        let mut chain: Vec<String> = Vec::new();
        let mut current: &str = link_name;
        assert(texts(chain@) =~= Seq::<Seq<char>>::empty());
        loop
            invariant_except_break
                texts(chain@) + walk_up(js, current@, fuel) == walk_up(js, link_name@, n0),
            invariant
                js == self.spec_joints(),
                reaches_base(js, current@, fuel),
            ensures
                texts(chain@) == walk_up(js, link_name@, n0),
            decreases fuel,
        {
            match self.parent_link(current) {
                None => {
                    let ghost before = texts(chain@);
                    chain.push(current.to_owned());
                    assert(walk_up(js, current@, fuel) =~= seq![current@]);
                    assert(texts(chain@) =~= before + seq![current@]);
                    break;
                },
                Some(p) => {
                    let ghost before = texts(chain@);
                    chain.push(current.to_owned());
                    assert(texts(chain@) =~= before.push(current@));
                    assert(before + walk_up(js, current@, fuel) =~= texts(chain@) + walk_up(
                        js,
                        p@,
                        (fuel - 1) as nat,
                    ));
                    current = p;
                    proof {
                        fuel = (fuel - 1) as nat;
                    }
                },
            }
        }
        let mut out: Vec<String> = Vec::new();
        let ghost c = texts(chain@);
        let mut k: usize = chain.len();
        while k > 0
            invariant
                k <= chain@.len(),
                c == texts(chain@),
                out@.len() == c.len() - k,
                texts(out@) == c.subrange(k as int, c.len() as int).reverse(),
            decreases k,
        {
            k = k - 1;
            let ghost before = out@;
            let item = chain[k].clone();
            assert(item@ == c[k as int]);
            out.push(item);
            proof {
                let want = c.subrange(k as int, c.len() as int).reverse();
                let prev = c.subrange(k as int + 1, c.len() as int).reverse();
                assert forall|j: int| 0 <= j < out@.len() implies #[trigger] texts(out@)[j] == want[j] by {
                    if j < before.len() {
                        assert(out@[j] == before[j]);
                        assert(texts(before)[j] == prev[j]);
                    }
                }
                assert(texts(out@) =~= want);
            }
        }
        assert(c.subrange(0, c.len() as int) =~= c);
        out
    }
}

} // verus!
