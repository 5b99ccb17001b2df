//! Identity records and their projection into the externally visible
//! passwd/group record shape.

use vstd::prelude::*;
use vstd::string::StringExecFns;

verus! {

/// A login shell that a user may prefer and that a serving environment may
/// support.
#[derive(Copy, Debug, PartialEq, Eq, Structural)]
pub enum Shell {
    Sh,
    Bash,
    Zsh,
    Fish,
}

impl Clone for Shell {
    fn clone(&self) -> (res: Self)
        ensures
            res == *self,
    {
        *self
    }
}

impl Shell {
    /// The shell's executable file name.
    pub open spec fn spec_name(self) -> Seq<char> {
        match self {
            Shell::Sh => "sh"@,
            Shell::Bash => "bash"@,
            Shell::Zsh => "zsh"@,
            Shell::Fish => "fish"@,
        }
    }

    /// The shell's executable file name, as it appears under the shells root.
    pub fn name(&self) -> (r: &'static str)
        ensures
            r@ == self.spec_name(),
    {
        match self {
            Shell::Sh => "sh",
            Shell::Bash => "bash",
            Shell::Zsh => "zsh",
            Shell::Fish => "fish",
        }
    }
}

/// A group entry of the directory.
#[derive(Debug)]
pub struct Group {
    pub name: String,
    pub gid: u32,
    pub members: Vec<String>,
}

/// The mathematical content of a [`Group`].
#[verifier::ext_equal]
pub struct GroupView {
    pub name: Seq<char>,
    pub gid: u32,
    pub members: Seq<Seq<char>>,
}

impl View for Group {
    type V = GroupView;

    open spec fn view(&self) -> GroupView {
        GroupView { name: self.name@, gid: self.gid, members: self.members.deep_view() }
    }
}

impl Clone for Group {
    fn clone(&self) -> (res: Self)
        ensures
            res@ == self@,
    {
        let res = Group {
            name: self.name.clone(),
            gid: self.gid,
            members: self.members.clone(),
        };
        proof {
            assert(res.members@ =~= self.members@);
            assert(res@ =~= self@);
        }
        res
    }
}

/// An externally visible group record, the shape handed to the host's
/// identity-resolution subsystem.
#[derive(Debug)]
pub struct GroupRecord {
    pub name: String,
    pub passwd: String,
    pub gid: u32,
    pub members: Vec<String>,
}

/// The mathematical content of a [`GroupRecord`].
#[verifier::ext_equal]
pub struct GroupRecordView {
    pub name: Seq<char>,
    pub passwd: Seq<char>,
    pub gid: u32,
    pub members: Seq<Seq<char>>,
}

impl View for GroupRecord {
    type V = GroupRecordView;

    open spec fn view(&self) -> GroupRecordView {
        GroupRecordView {
            name: self.name@,
            passwd: self.passwd@,
            gid: self.gid,
            members: self.members.deep_view(),
        }
    }
}

/// How a group projects: the name and members are kept verbatim, and the
/// password field holds a fixed placeholder.
pub open spec fn spec_group_record(g: GroupView) -> GroupRecordView {
    GroupRecordView { name: g.name, passwd: "x"@, gid: g.gid, members: g.members }
}

/// Projection of a stored group into the externally visible record shape.
pub trait GroupToNSS {
    type Target;

    /// What [`Self::to_nss`] promises of its result.
    spec fn to_nss_ensures(&self, r: Self::Target) -> bool;

    fn to_nss(&self) -> (r: Self::Target)
        ensures
            self.to_nss_ensures(r),
    ;
}

impl GroupToNSS for Group {
    type Target = GroupRecord;

    open spec fn to_nss_ensures(&self, r: GroupRecord) -> bool {
        r@ == spec_group_record(self@)
    }

    /// Creates an externally visible group record from a stored group.
    fn to_nss(&self) -> (r: GroupRecord) {
        let r = GroupRecord {
            name: self.name.clone(),
            passwd: String::from_str("x"),
            gid: self.gid,
            members: self.members.clone(),
        };
        proof {
            assert(r.members@ =~= self.members@);
            assert(r@ =~= spec_group_record(self@));
        }
        r
    }
}

impl GroupToNSS for Vec<Group> {
    type Target = Vec<GroupRecord>;

    open spec fn to_nss_ensures(&self, r: Vec<GroupRecord>) -> bool {
        &&& r@.len() == self@.len()
        &&& forall|i: int| 0 <= i < self@.len() ==> r@[i]@ == spec_group_record(self@[i]@)
    }

    fn to_nss(&self) -> (r: Vec<GroupRecord>) {
        let mut out: Vec<GroupRecord> = Vec::new();
        let mut i: usize = 0;
        while i < self.len()
            invariant
                i <= self@.len(),
                out@.len() == i,
                forall|k: int| 0 <= k < i ==> out@[k]@ == spec_group_record(self@[k]@),
            decreases self@.len() - i,
        {
            out.push(self[i].to_nss());
            i = i + 1;
        }
        out
    }
}

/// An ordered table of structured attributes attached to a user, keyed by
/// string. The table is opaque to the library: it is carried whole and
/// serialized for transport.
pub type AttrTable = toml::map::Map<String, toml::Value>;

/// Declares `toml::Value`, the structured value of one attribute, as an
/// opaque outside type: the library carries such values and never reads
/// inside them.
#[verifier::external_type_specification]
#[verifier::external_body]
pub struct ExTomlValue(toml::Value);

/// Declares `toml::map::Map`, the ordered table the attributes live in, as
/// an opaque outside type.
#[verifier::external_type_specification]
#[verifier::external_body]
#[verifier::reject_recursive_types(K)]
#[verifier::reject_recursive_types(V)]
pub struct ExTomlMap<K, V>(toml::map::Map<K, V>);

/// The single text blob that an attribute table serializes to. The table
/// iterates its keys in a fixed order, so the blob is a function of the
/// table's value alone.
pub uninterp spec fn attr_json_of(m: AttrTable) -> Seq<char>;

/// Relies on serde_json::to_string over a `toml::map::Map`: the JSON text
/// depends only on the table's keys and values (the map iterates in key
/// order), and a serialization failure is replaced by the empty string, so
/// the whole result is a function of the table alone.
#[verifier::external_body]
fn attr_table_to_json(m: &AttrTable) -> (r: String)
    ensures
        r@ == attr_json_of(*m),
{
    serde_json::to_string(m).unwrap_or_default()
}

/// Relies on the `Clone` of `toml::map::Map` (and of `toml::Value`), a
/// key-for-key, value-for-value copy of the table.
#[verifier::external_body]
fn clone_attrs(g: &Option<AttrTable>) -> (r: Option<AttrTable>)
    ensures
        r == *g,
{
    g.clone()
}

/// A user entry of the directory.
#[derive(Debug)]
pub struct User {
    pub name: String,
    pub id: u32,
    pub gecos: Option<AttrTable>,
    pub shells: Vec<Shell>,
}

/// The mathematical content of a [`User`]. The attribute table is carried
/// as an opaque value.
#[verifier::ext_equal]
pub struct UserView {
    pub name: Seq<char>,
    pub id: u32,
    pub gecos: Option<AttrTable>,
    pub shells: Seq<Shell>,
}

impl View for User {
    type V = UserView;

    open spec fn view(&self) -> UserView {
        UserView { name: self.name@, id: self.id, gecos: self.gecos, shells: self.shells@ }
    }
}

impl Clone for User {
    fn clone(&self) -> (res: Self)
        ensures
            res@ == self@,
    {
        let res = User {
            name: self.name.clone(),
            id: self.id,
            gecos: clone_attrs(&self.gecos),
            shells: self.shells.clone(),
        };
        proof {
            assert(res.shells@ =~= self.shells@);
            assert(res@ =~= self@);
        }
        res
    }
}

/// An externally visible passwd record, the shape handed to the host's
/// identity-resolution subsystem.
#[derive(Debug)]
pub struct PasswdRecord {
    pub name: String,
    pub passwd: String,
    pub uid: u32,
    pub gid: u32,
    pub gecos: String,
    pub dir: String,
    pub shell: String,
}

/// The mathematical content of a [`PasswdRecord`].
#[verifier::ext_equal]
pub struct PasswdRecordView {
    pub name: Seq<char>,
    pub passwd: Seq<char>,
    pub uid: u32,
    pub gid: u32,
    pub gecos: Seq<char>,
    pub dir: Seq<char>,
    pub shell: Seq<char>,
}

impl View for PasswdRecord {
    type V = PasswdRecordView;

    open spec fn view(&self) -> PasswdRecordView {
        PasswdRecordView {
            name: self.name@,
            passwd: self.passwd@,
            uid: self.uid,
            gid: self.gid,
            gecos: self.gecos@,
            dir: self.dir@,
            shell: self.shell@,
        }
    }
}

/// Shell selection: the first of the user's preferences that the supported
/// list contains; the fixed fallback where none matches or the preference
/// list is empty. Only membership in `supported` matters, and only the
/// order of `prefs` does. Total: every input yields a shell.
pub open spec fn spec_choose_shell(prefs: Seq<Shell>, supported: Seq<Shell>) -> Shell
    decreases prefs.len(),
{
    if prefs.len() == 0 {
        Shell::Bash
    } else if supported.contains(prefs[0]) {
        prefs[0]
    } else {
        spec_choose_shell(prefs.drop_first(), supported)
    }
}

/// Skipping a prefix of unsupported preferences does not change the
/// selected shell.
proof fn lemma_choose_shell_skip(prefs: Seq<Shell>, supported: Seq<Shell>, i: int)
    requires
        0 <= i <= prefs.len(),
        forall|k: int| 0 <= k < i ==> !supported.contains(prefs[k]),
    ensures
        spec_choose_shell(prefs, supported) == spec_choose_shell(prefs.skip(i), supported),
    decreases i,
{
    if i > 0 {
        assert(!supported.contains(prefs[0]));
        lemma_choose_shell_skip(prefs.drop_first(), supported, i - 1);
        assert(prefs.drop_first().skip(i - 1) =~= prefs.skip(i));
    } else {
        assert(prefs.skip(0) =~= prefs);
    }
}

/// Whether `list` holds `s`.
fn shell_in(s: Shell, list: &Vec<Shell>) -> (r: bool)
    ensures
        r == list@.contains(s),
{
    let mut j: usize = 0;
    while j < list.len()
        invariant
            j <= list@.len(),
            forall|k: int| 0 <= k < j ==> list@[k] != s,
        decreases list@.len() - j,
    {
        if list[j] == s {
            return true;
        }
        j = j + 1;
    }
    false
}

/// The text blob a user's attribute table projects to: its serialization,
/// or the empty string where the user has no attributes.
pub open spec fn spec_gecos_text(g: Option<AttrTable>) -> Seq<char> {
    match g {
        Option::Some(m) => attr_json_of(m),
        Option::None => Seq::<char>::empty(),
    }
}

/// How a user projects, given the roots for home directories and shell
/// binaries and the supported-shell list: uid and gid both carry the user's
/// id, the password field holds a fixed placeholder, the home directory and
/// shell path are built under the respective roots, and the attributes
/// serialize to a single text blob.
pub open spec fn spec_passwd_record(
    u: UserView,
    home_root: Seq<char>,
    shells_root: Seq<char>,
    shells: Seq<Shell>,
) -> PasswdRecordView {
    PasswdRecordView {
        name: u.name,
        passwd: "x"@,
        uid: u.id,
        gid: u.id,
        gecos: spec_gecos_text(u.gecos),
        dir: home_root + "/"@ + u.name,
        shell: shells_root + "/"@ + spec_choose_shell(u.shells, shells).spec_name(),
    }
}

impl User {
    /// The user's attribute table as a single text blob: its serialization,
    /// or the empty string where the user has no attributes.
    fn gecos_as_json(&self) -> (r: String)
        ensures
            r@ == spec_gecos_text(self.gecos),
    {
        match &self.gecos {
            Option::Some(map) => attr_table_to_json(map),
            Option::None => String::new(),
        }
    }

    /// Given the list of supported shells, the user's most preferred shell
    /// among them, or the fixed fallback where none of the preferences is
    /// supported.
    pub fn choose_shell(&self, supported_shells: &Vec<Shell>) -> (r: Shell)
        ensures
            r == spec_choose_shell(self.shells@, supported_shells@),
    {
        let mut i: usize = 0;
        while i < self.shells.len()
            invariant
                i <= self.shells@.len(),
                forall|k: int| 0 <= k < i ==> !supported_shells@.contains(self.shells@[k]),
            decreases self.shells@.len() - i,
        {
            if shell_in(self.shells[i], supported_shells) {
                proof {
                    lemma_choose_shell_skip(self.shells@, supported_shells@, i as int);
                    let rest = self.shells@.skip(i as int);
                    assert(rest.len() == self.shells@.len() - i);
                    assert(rest[0] == self.shells@[i as int]);
                    assert(supported_shells@.contains(rest[0]));
                    assert(spec_choose_shell(rest, supported_shells@) == rest[0]);
                }
                return self.shells[i];
            }
            i = i + 1;
        }
        proof {
            lemma_choose_shell_skip(self.shells@, supported_shells@, self.shells@.len() as int);
            assert(self.shells@.skip(self.shells@.len() as int).len() == 0);
        }
        Shell::Bash
    }
}

/// Projection of a stored user into the externally visible record shape,
/// parameterized by the supported-shell policy's roots and list.
pub trait UserToNSS {
    type Target;

    /// What [`Self::to_nss`] promises of its result.
    spec fn to_nss_ensures(
        &self,
        home_root: Seq<char>,
        shells_root: Seq<char>,
        shells: Seq<Shell>,
        r: Self::Target,
    ) -> bool;

    fn to_nss(&self, home_root: &str, shells_root: &str, shells: &Vec<Shell>) -> (r: Self::Target)
        ensures
            self.to_nss_ensures(home_root@, shells_root@, shells@, r),
    ;
}

impl UserToNSS for User {
    type Target = PasswdRecord;

    open spec fn to_nss_ensures(
        &self,
        home_root: Seq<char>,
        shells_root: Seq<char>,
        shells: Seq<Shell>,
        r: PasswdRecord,
    ) -> bool {
        r@ == spec_passwd_record(self@, home_root, shells_root, shells)
    }

    /// Creates an externally visible passwd record from a stored user,
    /// given the home root (such as "/mnt/home"), the shells root, and the
    /// list of supported shells.
    fn to_nss(&self, home_root: &str, shells_root: &str, shells: &Vec<Shell>) -> (r: PasswdRecord) {
        let mut dir = String::from_str(home_root);
        dir.append("/");
        dir.append(self.name.as_str());
        let mut shell = String::from_str(shells_root);
        shell.append("/");
        shell.append(self.choose_shell(shells).name());
        let r = PasswdRecord {
            name: self.name.clone(),
            passwd: String::from_str("x"),
            uid: self.id,
            gid: self.id,
            gecos: self.gecos_as_json(),
            dir,
            shell,
        };
        proof {
            assert(r@ =~= spec_passwd_record(self@, home_root@, shells_root@, shells@));
        }
        r
    }
}

impl UserToNSS for Vec<User> {
    type Target = Vec<PasswdRecord>;

    open spec fn to_nss_ensures(
        &self,
        home_root: Seq<char>,
        shells_root: Seq<char>,
        shells: Seq<Shell>,
        r: Vec<PasswdRecord>,
    ) -> bool {
        &&& r@.len() == self@.len()
        &&& forall|i: int|
            0 <= i < self@.len() ==> r@[i]@ == spec_passwd_record(
                self@[i]@,
                home_root,
                shells_root,
                shells,
            )
    }

    fn to_nss(&self, home_root: &str, shells_root: &str, shells: &Vec<Shell>) -> (r: Vec<
        PasswdRecord,
    >) {
        let mut out: Vec<PasswdRecord> = Vec::new();
        let mut i: usize = 0;
        while i < self.len()
            invariant
                i <= self@.len(),
                out@.len() == i,
                forall|k: int|
                    0 <= k < i ==> out@[k]@ == spec_passwd_record(
                        self@[k]@,
                        home_root@,
                        shells_root@,
                        shells@,
                    ),
            decreases self@.len() - i,
        {
            out.push(self[i].to_nss(home_root, shells_root, shells));
            i = i + 1;
        }
        out
    }
}

/// Shell selection reads the supported list through membership alone: two
/// supported lists holding the same shells select the same shell for every
/// preference list, so only the preference order affects the outcome.
pub proof fn lemma_choose_shell_membership_only(prefs: Seq<Shell>, s1: Seq<Shell>, s2: Seq<Shell>)
    requires
        forall|sh: Shell| #![auto] s1.contains(sh) == s2.contains(sh),
    ensures
        spec_choose_shell(prefs, s1) == spec_choose_shell(prefs, s2),
    decreases prefs.len(),
{
    if prefs.len() > 0 {
        assert(s1.contains(prefs[0]) == s2.contains(prefs[0]));
        if !s1.contains(prefs[0]) {
            lemma_choose_shell_membership_only(prefs.drop_first(), s1, s2);
        }
    }
}

/// Changing the home root changes only the projected home directory: every
/// other field of the passwd record stays as it was, and each record's
/// home directory is its root, a separator, and the user's name.
pub proof fn lemma_home_root_changes_only_dir(
    u: UserView,
    hr1: Seq<char>,
    hr2: Seq<char>,
    shells_root: Seq<char>,
    shells: Seq<Shell>,
)
    ensures
        ({
            let r1 = spec_passwd_record(u, hr1, shells_root, shells);
            let r2 = spec_passwd_record(u, hr2, shells_root, shells);
            &&& r1.name == r2.name
            &&& r1.passwd == r2.passwd
            &&& r1.uid == r2.uid
            &&& r1.gid == r2.gid
            &&& r1.gecos == r2.gecos
            &&& r1.shell == r2.shell
            &&& r1.dir == hr1 + "/"@ + u.name
            &&& r2.dir == hr2 + "/"@ + u.name
        }),
{
}

/// The supported-shell policy a serving environment owns: the shells it is
/// willing to honor, the root under which home directories live, and the
/// root under which shell binaries live.
#[derive(Debug)]
pub struct ShellPolicy {
    pub shells: Vec<Shell>,
    pub home_root: String,
    pub shells_root: String,
}

} // verus!
