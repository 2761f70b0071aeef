use vstd::prelude::*;

use crate::path::{extension, extension_spec, has_root, join, join_spec, path_parts, paths_equal, same_path};
use crate::text::{chars_of, push_all, string_of};

verus! {

pub open spec fn opt_str_view(o: Option<&str>) -> Option<Seq<char>> {
    match o {
        Some(s) => Some(s@),
        None => None,
    }
}

/// What an app's container holds, as a model: its directory, its id, and the extension
/// of an icon installed during this run, if any.
pub struct ContainerView {
    pub root: Seq<char>,
    pub id: Seq<char>,
    pub icon_ext: Option<Seq<char>>,
}

/// An installed app: a directory named by its id under the data directory, holding
/// `<id>.AppImage`, `<id>.desktop` and possibly `<id>.png` or `<id>.svg`.
pub struct Container {
    root: String,
    id: String,
    icon_ext: Option<String>,
}

/// The file `<id><suffix>` inside `root`.
pub open spec fn member(root: Seq<char>, id: Seq<char>, suffix: Seq<char>) -> Seq<char> {
    join_spec(root, id + suffix)
}

/// The temporary file that a staged write or copy goes through: `<to>.tmp`.
pub open spec fn staging_spec(to: Seq<char>) -> Seq<char> {
    to + ".tmp"@
}

/// A file to write by way of a staging file that is then renamed over the target.
pub struct StagedWrite {
    pub staging: String,
    pub target: String,
    pub contents: String,
}

/// A file to copy by way of a staging file that is then renamed over the target.
pub struct StagedCopy {
    pub source: String,
    pub staging: String,
    pub target: String,
}

/// What is found at a link's place (`fs::symlink_metadata`).
pub enum LinkState {
    Absent,
    Symlink,
    NotSymlink,
}

/// A symbolic link to create at `link` pointing to `target`, after removing the old
/// link there when `remove_old` is set.
pub struct SymlinkPlan {
    pub link: String,
    pub target: String,
    pub remove_old: bool,
}

/// An icon to install: the copy into the container, the icons of the other extension to
/// remove (failures to remove them are ignored), and the extension to record.
pub struct IconInstall {
    pub copy: StagedCopy,
    pub remove: Vec<String>,
    pub ext: String,
}

/// A directory entry of the data directory: its name when it is valid Unicode, and
/// whether it is a directory.
pub struct DirEntryInfo {
    pub name: Option<String>,
    pub is_dir: bool,
}

/// Why a link operation refuses.
pub enum ContainerError {
    /// Something that is not a symbolic link is where a link should go.
    NotASymlink { link: String },
    /// The link points somewhere else than into this container.
    WrongTarget { target: String, expected: String },
}

pub open spec fn container_error_message(e: ContainerError) -> Seq<char> {
    match e {
        ContainerError::NotASymlink { link } => "'"@ + link@
            + "' exists and is not a symlink, refusing to clear"@,
        ContainerError::WrongTarget { target, expected } => "'"@ + target@ + "' does not point to '"@
            + expected@ + "', aborting."@,
    }
}

impl ContainerError {
    /// The message of the error.
    pub fn message(&self) -> (m: String)
        ensures
            m@ == container_error_message(*self),
    {
        let mut out: Vec<char> = Vec::new();
        match self {
            ContainerError::NotASymlink { link } => {
                push_all(&mut out, &chars_of("'"));
                push_all(&mut out, &chars_of(link.as_str()));
                push_all(&mut out, &chars_of("' exists and is not a symlink, refusing to clear"));
            },
            ContainerError::WrongTarget { target, expected } => {
                push_all(&mut out, &chars_of("'"));
                push_all(&mut out, &chars_of(target.as_str()));
                push_all(&mut out, &chars_of("' does not point to '"));
                push_all(&mut out, &chars_of(expected.as_str()));
                push_all(&mut out, &chars_of("', aborting."));
            },
        }
        string_of(&out)
    }
}

/// `s + suffix` as a string.
fn with_suffix(s: &str, suffix: &str) -> (r: String)
    ensures
        r@ == s@ + suffix@,
{
    let mut out = chars_of(s);
    push_all(&mut out, &chars_of(suffix));
    string_of(&out)
}

/// The staging file for `to`.
pub fn staging_path(to: &str) -> (r: String)
    ensures
        r@ == staging_spec(to@),
{
    with_suffix(to, ".tmp")
}

/// Whether to clear an existing link before creating one at `link`.
pub fn clear_symlink(link: &str, state: LinkState) -> (r: Result<bool, ContainerError>)
    ensures
        match state {
            LinkState::Absent => r == Ok::<bool, ContainerError>(false),
            LinkState::Symlink => r == Ok::<bool, ContainerError>(true),
            LinkState::NotSymlink => r matches Err(ContainerError::NotASymlink { link: l }) && l@
                == link@,
        },
{
    match state {
        LinkState::Absent => Ok(false),
        LinkState::Symlink => Ok(true),
        LinkState::NotSymlink => Err(ContainerError::NotASymlink { link: link.to_owned() }),
    }
}

/// Whether to remove the link at `link`, given where it points now (`None` when it cannot
/// be read): nothing to do when unreadable, removal when it points to `expected`, refusal
/// otherwise.
pub fn remove_symlink(link: &str, expected: &str, current: Option<&str>) -> (r: Result<
    Option<String>,
    ContainerError,
>)
    ensures
        match current {
            None => r matches Ok(None),
            Some(t) => if same_path(t@, expected@) {
                r matches Ok(Some(l)) && l@ == link@
            } else {
                r matches Err(ContainerError::WrongTarget { target, expected: e }) && target@ == t@
                    && e@ == expected@
            },
        },
{
    match current {
        None => Ok(None),
        Some(t) => {
            if paths_equal(t, expected) {
                Ok(Some(link.to_owned()))
            } else {
                Err(ContainerError::WrongTarget { target: t.to_owned(), expected: expected.to_owned() })
            }
        },
    }
}

impl View for Container {
    type V = ContainerView;

    closed spec fn view(&self) -> ContainerView {
        ContainerView {
            root: self.root@,
            id: self.id@,
            icon_ext: match self.icon_ext {
                Some(e) => Some(e@),
                None => None,
            },
        }
    }
}

impl Container {
    /// The container of app `id` under `data_dir`.
    pub fn new(data_dir: &str, id: &str) -> (c: Container)
        ensures
            c@ == (ContainerView { root: join_spec(data_dir@, id@), id: id@, icon_ext: None }),
    {
        Container { root: join(data_dir, id), id: id.to_owned(), icon_ext: None }
    }

    fn member_path(&self, suffix: &str) -> (r: String)
        ensures
            r@ == member(self@.root, self@.id, suffix@),
    {
        let name = with_suffix(self.id.as_str(), suffix);
        join(self.root.as_str(), name.as_str())
    }

    /// `<root>/<id>.AppImage`.
    pub fn appimage_path(&self) -> (r: String)
        ensures
            r@ == member(self@.root, self@.id, ".AppImage"@),
    {
        self.member_path(".AppImage")
    }

    /// The icon of the container: the one installed during this run when there is one,
    /// otherwise `<id>.png` when it exists, otherwise `<id>.svg` when it exists.
    pub fn icon_path(&self, png_exists: bool, svg_exists: bool) -> (r: Option<String>)
        ensures
            match self@.icon_ext {
                Some(e) => r matches Some(p) && p@ == member(self@.root, self@.id, "."@ + e),
                None => if png_exists {
                    r matches Some(p) && p@ == member(self@.root, self@.id, ".png"@)
                } else if svg_exists {
                    r matches Some(p) && p@ == member(self@.root, self@.id, ".svg"@)
                } else {
                    r is None
                },
            },
    {
        match &self.icon_ext {
            Some(e) => {
                let suffix = with_suffix(".", e.as_str());
                Some(self.member_path(suffix.as_str()))
            },
            None => {
                if png_exists {
                    Some(self.member_path(".png"))
                } else if svg_exists {
                    Some(self.member_path(".svg"))
                } else {
                    None
                }
            },
        }
    }

    /// The two icon files that a container may hold, in the order they are looked for:
    /// `<id>.png`, then `<id>.svg`.
    pub fn icon_candidates(&self) -> (r: (String, String))
        ensures
            r.0@ == member(self@.root, self@.id, ".png"@),
            r.1@ == member(self@.root, self@.id, ".svg"@),
    {
        (self.member_path(".png"), self.member_path(".svg"))
    }

    /// `<root>/<id>.desktop`.
    pub fn desktop_path(&self) -> (r: String)
        ensures
            r@ == member(self@.root, self@.id, ".desktop"@),
    {
        self.member_path(".desktop")
    }

    /// `<root>/<id>.original.desktop`: the desktop entry as it was before any edit.
    pub fn original_path(&self) -> (r: String)
        ensures
            r@ == member(self@.root, self@.id, ".original.desktop"@),
    {
        self.member_path(".original.desktop")
    }

    /// `<root>/<id>.override.desktop`: the user's overrides.
    pub fn override_path(&self) -> (r: String)
        ensures
            r@ == member(self@.root, self@.id, ".override.desktop"@),
    {
        self.member_path(".override.desktop")
    }

    /// The container's directory.
    pub fn root(&self) -> (r: &str)
        ensures
            r@ == self@.root,
    {
        self.root.as_str()
    }

    /// The app's id.
    pub fn id(&self) -> (r: &str)
        ensures
            r@ == self@.id,
    {
        self.id.as_str()
    }

    /// `<application_dir>/<id>.desktop`: where the desktop entry is linked.
    pub fn desktop_link(&self, application_dir: &str) -> (r: String)
        ensures
            r@ == join_spec(application_dir@, self@.id + ".desktop"@),
    {
        let name = with_suffix(self.id.as_str(), ".desktop");
        join(application_dir, name.as_str())
    }

    /// `<bin_dir>/<id>`: where the AppImage is linked.
    pub fn bin_link(&self, bin_dir: &str) -> (r: String)
        ensures
            r@ == join_spec(bin_dir@, self@.id),
    {
        join(bin_dir, self.id.as_str())
    }

    fn staged_write(&self, target: String, contents: &str) -> (w: StagedWrite)
        ensures
            w.target@ == target@,
            w.staging@ == staging_spec(target@),
            w.contents@ == contents@,
    {
        let staging = staging_path(target.as_str());
        StagedWrite { staging, target, contents: contents.to_owned() }
    }

    /// Writes `contents` as the container's desktop entry, through `<desktop>.tmp`.
    pub fn install_desktop(&self, contents: &str) -> (w: StagedWrite)
        ensures
            w.target@ == member(self@.root, self@.id, ".desktop"@),
            w.staging@ == staging_spec(w.target@),
            w.contents@ == contents@,
    {
        self.staged_write(self.desktop_path(), contents)
    }

    /// Writes `contents` as the unedited desktop entry.
    pub fn install_original(&self, contents: &str) -> (w: StagedWrite)
        ensures
            w.target@ == member(self@.root, self@.id, ".original.desktop"@),
            w.staging@ == staging_spec(w.target@),
            w.contents@ == contents@,
    {
        self.staged_write(self.original_path(), contents)
    }

    /// Writes `contents` as the override file.
    pub fn install_override(&self, contents: &str) -> (w: StagedWrite)
        ensures
            w.target@ == member(self@.root, self@.id, ".override.desktop"@),
            w.staging@ == staging_spec(w.target@),
            w.contents@ == contents@,
    {
        self.staged_write(self.override_path(), contents)
    }

    /// Copies the AppImage at `appimage` into the container, through `<appimage>.tmp`.
    pub fn install_appimage(&self, appimage: &str) -> (c: StagedCopy)
        ensures
            c.source@ == appimage@,
            c.target@ == member(self@.root, self@.id, ".AppImage"@),
            c.staging@ == staging_spec(c.target@),
    {
        let target = self.appimage_path();
        let staging = staging_path(target.as_str());
        StagedCopy { source: appimage.to_owned(), staging, target }
    }

    /// Installing the icon file `icon`: it is copied to `<id>.<ext>`, where `ext` is its
    /// extension (`png` when it has none), and the icon of the other of `png` and `svg`
    /// is removed.
    pub fn install_icon(&self, icon: &str) -> (p: IconInstall)
        ensures
            p.ext@ == match extension_spec(icon@) {
                Some(e) => e,
                None => "png"@,
            },
            p.copy.source@ == icon@,
            p.copy.target@ == member(self@.root, self@.id, "."@ + p.ext@),
            p.copy.staging@ == staging_spec(p.copy.target@),
            p.remove@.len() == (if p.ext@ == "png"@ || p.ext@ == "svg"@ { 1int } else { 2int }),
            p.ext@ != "png"@ ==> p.remove@[0]@ == member(self@.root, self@.id, ".png"@),
            p.ext@ == "png"@ ==> p.remove@[0]@ == member(self@.root, self@.id, ".svg"@),
            p.ext@ != "png"@ && p.ext@ != "svg"@ ==> p.remove@[1]@ == member(
                self@.root,
                self@.id,
                ".svg"@,
            ),
    {
        let ext = match extension(icon) {
            Some(e) => e,
            None => "png".to_owned(),
        };
        let suffix = with_suffix(".", ext.as_str());
        let target = self.member_path(suffix.as_str());
        let staging = staging_path(target.as_str());
        let mut remove: Vec<String> = Vec::new();
        let png = "png".to_owned();
        let svg = "svg".to_owned();
        proof {
            reveal_strlit("png");
            reveal_strlit("svg");
            assert("png"@[0] != "svg"@[0]);
        }
        if ext != png {
            remove.push(self.member_path(".png"));
        }
        if ext != svg {
            remove.push(self.member_path(".svg"));
        }
        IconInstall { copy: StagedCopy { source: icon.to_owned(), staging, target }, remove, ext }
    }

    /// Records that an icon with extension `ext` was installed.
    pub fn set_icon_ext(&mut self, ext: &str)
        ensures
            final(self)@ == (ContainerView { icon_ext: Some(ext@), ..old(self)@ }),
    {
        self.icon_ext = Some(ext.to_owned());
    }

    /// Linking the desktop entry into `application_dir`, given what is at the link's place.
    pub fn symlink_desktop(&self, application_dir: &str, existing: LinkState) -> (r: Result<
        SymlinkPlan,
        ContainerError,
    >)
        ensures
            match existing {
                LinkState::NotSymlink => r matches Err(ContainerError::NotASymlink { link }) && link@
                    == join_spec(application_dir@, self@.id + ".desktop"@),
                _ => r matches Ok(p) && p.link@ == join_spec(application_dir@, self@.id + ".desktop"@)
                    && p.target@ == member(self@.root, self@.id, ".desktop"@) && p.remove_old == (
                existing is Symlink),
            },
            plan_view(r) == link_plan_spec(
                desktop_link_spec(self@, application_dir@),
                member(self@.root, self@.id, ".desktop"@),
                existing,
            ),
    {
        let link = self.desktop_link(application_dir);
        let remove_old = clear_symlink(link.as_str(), existing)?;
        Ok(SymlinkPlan { link, target: self.desktop_path(), remove_old })
    }

    /// Linking the AppImage into `bin_dir`, given what is at the link's place.
    pub fn symlink_appimage(&self, bin_dir: &str, existing: LinkState) -> (r: Result<
        SymlinkPlan,
        ContainerError,
    >)
        ensures
            match existing {
                LinkState::NotSymlink => r matches Err(ContainerError::NotASymlink { link }) && link@
                    == join_spec(bin_dir@, self@.id),
                _ => r matches Ok(p) && p.link@ == join_spec(bin_dir@, self@.id) && p.target@
                    == member(self@.root, self@.id, ".AppImage"@) && p.remove_old == (
                existing is Symlink),
            },
            plan_view(r) == link_plan_spec(
                bin_link_spec(self@, bin_dir@),
                member(self@.root, self@.id, ".AppImage"@),
                existing,
            ),
    {
        let link = self.bin_link(bin_dir);
        let remove_old = clear_symlink(link.as_str(), existing)?;
        Ok(SymlinkPlan { link, target: self.appimage_path(), remove_old })
    }

    /// Removing the desktop link from `application_dir`, given where it points now
    /// (`None` when it cannot be read): the link to remove, if any.
    pub fn remove_symlink_desktop(&self, application_dir: &str, current: Option<&str>) -> (r:
        Result<Option<String>, ContainerError>)
        ensures
            match current {
                None => r matches Ok(None),
                Some(t) => if same_path(t@, member(self@.root, self@.id, ".desktop"@)) {
                    r matches Ok(Some(l)) && l@ == join_spec(application_dir@, self@.id + ".desktop"@)
                } else {
                    r matches Err(ContainerError::WrongTarget { target, expected }) && target@ == t@
                        && expected@ == member(self@.root, self@.id, ".desktop"@)
                },
            },
            removal_view(r) == removal_spec(
                desktop_link_spec(self@, application_dir@),
                member(self@.root, self@.id, ".desktop"@),
                opt_str_view(current),
            ),
    {
        let link = self.desktop_link(application_dir);
        let expected = self.desktop_path();
        remove_symlink(link.as_str(), expected.as_str(), current)
    }

    /// Removing the AppImage link from `bin_dir`, given where it points now (`None` when it
    /// cannot be read): the link to remove, if any.
    pub fn remove_symlink_appimage(&self, bin_dir: &str, current: Option<&str>) -> (r: Result<
        Option<String>,
        ContainerError,
    >)
        ensures
            match current {
                None => r matches Ok(None),
                Some(t) => if same_path(t@, member(self@.root, self@.id, ".AppImage"@)) {
                    r matches Ok(Some(l)) && l@ == join_spec(bin_dir@, self@.id)
                } else {
                    r matches Err(ContainerError::WrongTarget { target, expected }) && target@ == t@
                        && expected@ == member(self@.root, self@.id, ".AppImage"@)
                },
            },
            removal_view(r) == removal_spec(
                bin_link_spec(self@, bin_dir@),
                member(self@.root, self@.id, ".AppImage"@),
                opt_str_view(current),
            ),
    {
        let link = self.bin_link(bin_dir);
        let expected = self.appimage_path();
        remove_symlink(link.as_str(), expected.as_str(), current)
    }
}

/// The containers for the directory entries that are directories with a Unicode name.
pub open spec fn containers_spec(data_dir: Seq<char>, entries: Seq<DirEntryInfo>) -> Seq<
    ContainerView,
>
    decreases entries.len(),
{
    if entries.len() == 0 {
        Seq::empty()
    } else {
        let e = entries.last();
        containers_spec(data_dir, entries.drop_last()) + match e.name {
            Some(n) if e.is_dir => seq![
                ContainerView { root: join_spec(data_dir, n@), id: n@, icon_ext: None },
            ],
            _ => Seq::<ContainerView>::empty(),
        }
    }
}

/// The containers in the data directory, from its entries, in their order.
pub fn containers_from(data_dir: &str, entries: &Vec<DirEntryInfo>) -> (cs: Vec<Container>)
    ensures
        cs@.map_values(|c: Container| c@) == containers_spec(data_dir@, entries@),
{
    let mut cs: Vec<Container> = Vec::new();
    let mut i: usize = 0;
    while i < entries.len()
        invariant
            i <= entries.len(),
            cs@.map_values(|c: Container| c@) == containers_spec(data_dir@, entries@.take(i as int)),
        decreases entries.len() - i,
    {
        let ghost before = cs@.map_values(|c: Container| c@);
        assert(entries@.take(i + 1).drop_last() =~= entries@.take(i as int));
        let e = &entries[i];
        if e.is_dir {
            match &e.name {
                Some(n) => {
                    cs.push(Container::new(data_dir, n.as_str()));
                    assert(cs@.map_values(|c: Container| c@) =~= before + seq![cs@.last()@]);
                },
                None => {},
            }
        }
        assert(cs@.map_values(|c: Container| c@) =~= containers_spec(data_dir@, entries@.take(i + 1)));
        i += 1;
    }
    assert(entries@.take(entries.len() as int) =~= entries@);
    cs
}

} // verus!

verus! {

/// What linking decides, as a model: `None` when something that is not a link is in
/// the way, otherwise the link, its target, and whether an old link is removed first.
pub open spec fn link_plan_spec(link: Seq<char>, target: Seq<char>, existing: LinkState) -> Option<
    (Seq<char>, Seq<char>, bool),
> {
    match existing {
        LinkState::NotSymlink => None,
        _ => Some((link, target, existing is Symlink)),
    }
}

/// What unlinking decides, as a model: `None` when the link points elsewhere (refused),
/// otherwise the link to remove, if any (none when it cannot be read).
pub open spec fn removal_spec(link: Seq<char>, expected: Seq<char>, current: Option<Seq<char>>) -> Option<
    Option<Seq<char>>,
> {
    match current {
        None => Some(None),
        Some(t) => if same_path(t, expected) {
            Some(Some(link))
        } else {
            None
        },
    }
}

pub open spec fn plan_view(r: Result<SymlinkPlan, ContainerError>) -> Option<(Seq<char>, Seq<char>, bool)> {
    match r {
        Ok(p) => Some((p.link@, p.target@, p.remove_old)),
        Err(_) => None,
    }
}

pub open spec fn removal_view(r: Result<Option<String>, ContainerError>) -> Option<Option<Seq<char>>> {
    match r {
        Ok(Some(l)) => Some(Some(l@)),
        Ok(None) => Some(None),
        Err(_) => None,
    }
}

/// Where the desktop entry of `c` is linked in `dir`.
pub open spec fn desktop_link_spec(c: ContainerView, dir: Seq<char>) -> Seq<char> {
    join_spec(dir, c.id + ".desktop"@)
}

/// Where the AppImage of `c` is linked in `dir`.
pub open spec fn bin_link_spec(c: ContainerView, dir: Seq<char>) -> Seq<char> {
    join_spec(dir, c.id)
}

/// The links that installing creates are the ones that removing takes away, and only
/// those: whenever `symlink_desktop` (or `symlink_appimage`) plans a link, removing
/// that link when it points to the planned target removes exactly it, and removing it when
/// it points anywhere that is not the same path is refused.
pub proof fn law_installed_links_are_removable(
    c: ContainerView,
    dir: Seq<char>,
    existing: LinkState,
    other: Seq<char>,
)
    ensures
        link_plan_spec(desktop_link_spec(c, dir), member(c.root, c.id, ".desktop"@), existing) matches Some(
            (l, t, _),
        ) ==> removal_spec(desktop_link_spec(c, dir), member(c.root, c.id, ".desktop"@), Some(t))
            == Some(Some(l)),
        link_plan_spec(bin_link_spec(c, dir), member(c.root, c.id, ".AppImage"@), existing) matches Some(
            (l, t, _),
        ) ==> removal_spec(bin_link_spec(c, dir), member(c.root, c.id, ".AppImage"@), Some(t))
            == Some(Some(l)),
        !same_path(other, member(c.root, c.id, ".desktop"@)) ==> removal_spec(
            desktop_link_spec(c, dir),
            member(c.root, c.id, ".desktop"@),
            Some(other),
        ) is None,
        !same_path(other, member(c.root, c.id, ".AppImage"@)) ==> removal_spec(
            bin_link_spec(c, dir),
            member(c.root, c.id, ".AppImage"@),
            Some(other),
        ) is None,
{
}


/// Removing refuses every link that does not point into the container: the desktop link
/// (or the AppImage link) is removed only when its target has the same components as the
/// container's desktop entry (or AppImage), so a link to a file of the same name in another
/// directory is refused.
pub proof fn law_removal_stays_in_container(c: ContainerView, dir: Seq<char>, target: Seq<char>)
    ensures
        removal_spec(desktop_link_spec(c, dir), member(c.root, c.id, ".desktop"@), Some(target)) is Some
            ==> path_parts(target) == path_parts(member(c.root, c.id, ".desktop"@)) && has_root(
            target,
        ) == has_root(member(c.root, c.id, ".desktop"@)),
        removal_spec(bin_link_spec(c, dir), member(c.root, c.id, ".AppImage"@), Some(target)) is Some
            ==> path_parts(target) == path_parts(member(c.root, c.id, ".AppImage"@)) && has_root(
            target,
        ) == has_root(member(c.root, c.id, ".AppImage"@)),
        path_parts(target) != path_parts(member(c.root, c.id, ".desktop"@)) ==> removal_spec(
            desktop_link_spec(c, dir),
            member(c.root, c.id, ".desktop"@),
            Some(target),
        ) is None,
        path_parts(target) != path_parts(member(c.root, c.id, ".AppImage"@)) ==> removal_spec(
            bin_link_spec(c, dir),
            member(c.root, c.id, ".AppImage"@),
            Some(target),
        ) is None,
{
}

} // verus!
