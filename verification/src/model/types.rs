//! Dock items, the windows they group, and their views.
use crate::config::{AppletConfig, AppletKind};
use crate::desktop::DesktopApp;
use crate::path::{file_name, file_name_vec};
use crate::seqs::{first_where, lemma_first_where, lemma_first_where_is, lemma_first_where_none};
use crate::text::{
    blank, chars_of, concat_vec, copy_opt_string, decimal, decimal_string, is_blank_vec,
    lower_seq, lower_string, opt_view, starts_with, starts_with_vec, str_eq, string_of, subvec,
    trim, trim_vec,
};
use std::collections::hash_map::DefaultHasher;
use std::hash::{Hash, Hasher};
use vstd::prelude::*;

verus! {

/// X11 window identifier.
pub type WindowId = u32;

/// An ARGB window icon as reported by the window system, with a hash of its
/// size and pixels that identifies it cheaply.
#[derive(Debug, Clone)]
pub struct WindowIcon {
    pub width: u32,
    pub height: u32,
    pub argb: Vec<u32>,
    signature: u64,
}

pub struct WindowIconView {
    pub width: u32,
    pub height: u32,
    pub argb: Seq<u32>,
    pub signature: u64,
}

impl View for WindowIcon {
    type V = WindowIconView;

    closed spec fn view(&self) -> WindowIconView {
        WindowIconView {
            width: self.width,
            height: self.height,
            argb: self.argb@,
            signature: self.signature,
        }
    }
}

/// Two icons are the same icon when their sizes and their hashes agree.
impl PartialEq for WindowIcon {
    fn eq(&self, other: &Self) -> (r: bool) {
        self.width == other.width && self.height == other.height && self.signature == other.signature
    }
}

impl vstd::std_specs::cmp::PartialEqSpecImpl for WindowIcon {
    open spec fn obeys_eq_spec() -> bool {
        true
    }

    open spec fn eq_spec(&self, other: &Self) -> bool {
        self@.width == other@.width && self@.height == other@.height && self@.signature
            == other@.signature
    }
}

pub open spec fn opt_icon_view(o: Option<WindowIcon>) -> Option<WindowIconView> {
    match o {
        Some(i) => Some(i@),
        None => None,
    }
}

fn copy_pixels(v: &Vec<u32>) -> (r: Vec<u32>)
    ensures
        r@ == v@,
{
    let mut out: Vec<u32> = Vec::new();
    let mut i: usize = 0;
    while i < v.len()
        invariant
            i <= v.len(),
            out@ == v@.subrange(0, i as int),
        decreases v.len() - i,
    {
        out.push(v[i]);
        assert(v@.subrange(0, i + 1) == v@.subrange(0, i as int).push(v@[i as int]));
        i = i + 1;
    }
    assert(v@.subrange(0, v.len() as int) == v@);
    out
}

pub fn copy_icon(icon: &Option<WindowIcon>) -> (r: Option<WindowIcon>)
    ensures
        opt_icon_view(r) == opt_icon_view(*icon),
{
    match icon {
        Some(i) => Some(
            WindowIcon {
                width: i.width,
                height: i.height,
                argb: copy_pixels(&i.argb),
                signature: i.signature,
            },
        ),
        None => None,
    }
}

/// Feeds a `u32` to the hasher: calls `<u32 as Hash>::hash`. What it writes
/// is not stated (std documents no byte layout).
#[verifier::external_body]
fn hash_u32(value: u32, state: &mut DefaultHasher) {
    value.hash(state);
}

/// Feeds the pixels to the hasher: calls `<Vec<u32> as Hash>::hash`. What it
/// writes is not stated (std documents no byte layout).
#[verifier::external_body]
fn hash_pixels(pixels: &Vec<u32>, state: &mut DefaultHasher) {
    pixels.hash(state);
}

impl WindowIcon {
    /// An icon of the given size and pixels, hashed with the standard
    /// hasher over its width, height and pixels.
    pub fn from_argb(width: u32, height: u32, argb: Vec<u32>) -> (r: Self)
        ensures
            r@.width == width,
            r@.height == height,
            r@.argb == argb@,
    {
        let mut hasher = DefaultHasher::new();
        hash_u32(width, &mut hasher);
        hash_u32(height, &mut hasher);
        hash_pixels(&argb, &mut hasher);
        let signature = hasher.finish();
        WindowIcon { width, height, argb, signature }
    }

    /// The icon's width in pixels.
    pub fn width(&self) -> (r: u32)
        ensures
            r == self@.width,
    {
        self.width
    }

    /// The icon's height in pixels.
    pub fn height(&self) -> (r: u32)
        ensures
            r == self@.height,
    {
        self.height
    }

    /// The icon's hash, which identifies it in caches.
    pub fn signature(&self) -> (r: u64)
        ensures
            r == self@.signature,
    {
        self.signature
    }
}

/// What the dock knows about one top-level window.
#[derive(Debug, Clone, PartialEq)]
pub struct WindowInfo {
    pub xid: WindowId,
    pub title: Option<String>,
    pub class: Option<String>,
    pub pid: Option<u32>,
    pub executable: Option<String>,
    pub workspace: Option<u32>,
    pub icon: Option<WindowIcon>,
    pub active: bool,
    pub urgent: bool,
    pub minimized: bool,
}

pub struct WindowInfoView {
    pub xid: WindowId,
    pub title: Option<Seq<char>>,
    pub class: Option<Seq<char>>,
    pub pid: Option<u32>,
    pub executable: Option<Seq<char>>,
    pub workspace: Option<u32>,
    pub icon: Option<WindowIconView>,
    pub active: bool,
    pub urgent: bool,
    pub minimized: bool,
}

impl View for WindowInfo {
    type V = WindowInfoView;

    open spec fn view(&self) -> WindowInfoView {
        WindowInfoView {
            xid: self.xid,
            title: opt_view(self.title),
            class: opt_view(self.class),
            pid: self.pid,
            executable: opt_view(self.executable),
            workspace: self.workspace,
            icon: opt_icon_view(self.icon),
            active: self.active,
            urgent: self.urgent,
            minimized: self.minimized,
        }
    }
}

/// One icon on the dock: an application (pinned or running) or an applet.
#[derive(Debug, Clone, PartialEq)]
pub struct DockItem {
    pub id: String,
    pub name: String,
    pub desktop_id: Option<String>,
    pub startup_wm_class: Option<String>,
    pub icon_name: Option<String>,
    pub window_icon: Option<WindowIcon>,
    pub pinned: bool,
    pub windows: Vec<WindowInfo>,
    pub active: bool,
    pub urgent: bool,
    pub badge: Option<u32>,
}

pub struct DockItemView {
    pub id: Seq<char>,
    pub name: Seq<char>,
    pub desktop_id: Option<Seq<char>>,
    pub startup_wm_class: Option<Seq<char>>,
    pub icon_name: Option<Seq<char>>,
    pub window_icon: Option<WindowIconView>,
    pub pinned: bool,
    pub windows: Seq<WindowInfoView>,
    pub active: bool,
    pub urgent: bool,
    pub badge: Option<u32>,
}

pub open spec fn windows_view(ws: Seq<WindowInfo>) -> Seq<WindowInfoView> {
    ws.map_values(|w: WindowInfo| w@)
}

impl View for DockItem {
    type V = DockItemView;

    open spec fn view(&self) -> DockItemView {
        DockItemView {
            id: self.id@,
            name: self.name@,
            desktop_id: opt_view(self.desktop_id),
            startup_wm_class: opt_view(self.startup_wm_class),
            icon_name: opt_view(self.icon_name),
            window_icon: opt_icon_view(self.window_icon),
            pinned: self.pinned,
            windows: windows_view(self.windows@),
            active: self.active,
            urgent: self.urgent,
            badge: self.badge,
        }
    }
}

/// The ordered items of the dock.
#[derive(Debug, Clone, PartialEq)]
pub struct DockModel {
    pub items: Vec<DockItem>,
}

pub open spec fn items_view(items: Seq<DockItem>) -> Seq<DockItemView> {
    items.map_values(|i: DockItem| i@)
}

impl View for DockModel {
    type V = Seq<DockItemView>;

    open spec fn view(&self) -> Seq<DockItemView> {
        items_view(self.items@)
    }
}

impl Default for DockModel {
    fn default() -> (r: Self)
        ensures
            r@.len() == 0,
    {
        DockModel { items: Vec::new() }
    }
}

#[derive(Debug, Clone, Copy, PartialEq, Eq, Structural)]
pub enum DockItemKind {
    Application,
    DownloadsApplet,
    TrashApplet,
    FolderApplet,
}

#[derive(Debug, Clone, Copy, PartialEq, Eq, Structural)]
pub enum DockSectionKind {
    Applications,
    Separator,
    Applets,
}

/// A run of items, by index into the model.
#[derive(Debug, Clone, PartialEq, Eq)]
pub struct DockSection {
    pub kind: DockSectionKind,
    pub item_indices: Vec<usize>,
}

/// The three sections of the dock, left to right.
#[derive(Debug, Clone, PartialEq, Eq)]
pub struct DockSections {
    pub applications: DockSection,
    pub separator: DockSection,
    pub applets: DockSection,
}

impl DockSections {
    /// The sections in display order.
    pub fn ordered(&self) -> (r: [&DockSection; 3])
        ensures
            r@[0] == &self.applications,
            r@[1] == &self.separator,
            r@[2] == &self.applets,
    {
        [&self.applications, &self.separator, &self.applets]
    }
}

pub open spec fn downloads_id() -> Seq<char> {
    "applet:downloads"@
}

pub open spec fn trash_id() -> Seq<char> {
    "applet:trash"@
}

pub open spec fn folder_prefix() -> Seq<char> {
    "applet:folder:"@
}

/// The kind of item an id names.
pub open spec fn kind_of(id: Seq<char>) -> DockItemKind {
    if id == downloads_id() {
        DockItemKind::DownloadsApplet
    } else if id == trash_id() {
        DockItemKind::TrashApplet
    } else if starts_with(id, folder_prefix()) {
        DockItemKind::FolderApplet
    } else {
        DockItemKind::Application
    }
}

pub open spec fn is_app(item: DockItemView) -> bool {
    kind_of(item.id) == DockItemKind::Application
}

/// Name of a folder, or "Folder" when the path has no usable final component.
pub open spec fn folder_name(path: Seq<char>) -> Seq<char> {
    match file_name(path) {
        Some(f) if !blank(f) => f,
        _ => "Folder"@,
    }
}

/// An applet item: pinned, no windows, no desktop entry.
pub open spec fn applet_view(id: Seq<char>, name: Seq<char>, icon: Seq<char>) -> DockItemView {
    DockItemView {
        id,
        name,
        desktop_id: None,
        startup_wm_class: None,
        icon_name: Some(icon),
        window_icon: None,
        pinned: true,
        windows: Seq::empty(),
        active: false,
        urgent: false,
        badge: None,
    }
}

pub open spec fn downloads_view() -> DockItemView {
    applet_view(downloads_id(), "Downloads"@, "folder-download"@)
}

pub open spec fn trash_view() -> DockItemView {
    applet_view(trash_id(), "Trash"@, "user-trash"@)
}

pub open spec fn folder_view(
    label: Seq<char>,
    path: Seq<char>,
    icon_name: Option<Seq<char>>,
) -> DockItemView {
    let name = if blank(label) {
        folder_name(path)
    } else {
        trim(label)
    };
    let icon = match icon_name {
        Some(i) => i,
        None => "folder"@,
    };
    applet_view(folder_prefix() + path, name, icon)
}

/// The item a configured applet becomes, if it names a path.
pub open spec fn applet_config_item(applet: crate::config::AppletConfigView) -> Option<
    DockItemView,
> {
    match applet.kind {
        AppletKind::Folder => match applet.path {
            Some(p) => Some(folder_view(applet.label, p, applet.icon_name)),
            None => None,
        },
    }
}

/// A fresh item for a desktop entry.
pub open spec fn app_item(app: crate::desktop::DesktopAppView, pinned: bool) -> DockItemView {
    DockItemView {
        id: app.desktop_id,
        name: app.name,
        desktop_id: Some(app.desktop_id),
        startup_wm_class: app.startup_wm_class,
        icon_name: app.icon_name,
        window_icon: None,
        pinned,
        windows: Seq::empty(),
        active: false,
        urgent: false,
        badge: None,
    }
}

/// The item after a window joins it: the first window icon seen is kept.
pub open spec fn with_window(item: DockItemView, w: WindowInfoView) -> DockItemView {
    DockItemView {
        window_icon: if item.window_icon is None {
            w.icon
        } else {
            item.window_icon
        },
        windows: item.windows.push(w),
        ..item
    }
}

pub open spec fn lower_opt(o: Option<Seq<char>>) -> Option<Seq<char>> {
    match o {
        Some(s) => Some(lower_seq(s)),
        None => None,
    }
}

/// An item for a window that no desktop entry claims.
pub open spec fn window_item(w: WindowInfoView) -> DockItemView {
    let name = match w.class {
        Some(c) => c,
        None => match w.title {
            Some(t) => t,
            None => "Application"@,
        },
    };
    with_window(
        DockItemView {
            id: "window:"@ + decimal(w.xid as nat),
            name,
            desktop_id: None,
            startup_wm_class: w.class,
            icon_name: lower_opt(w.class),
            window_icon: None,
            pinned: false,
            windows: Seq::empty(),
            active: false,
            urgent: false,
            badge: None,
        },
        w,
    )
}

/// The window to raise for an item: the active one, else the first that is
/// not minimized, else the first.
pub open spec fn window_is_active() -> spec_fn(WindowInfoView) -> bool {
    |w: WindowInfoView| w.active
}

pub open spec fn window_is_shown() -> spec_fn(WindowInfoView) -> bool {
    |w: WindowInfoView| !w.minimized
}

pub open spec fn primary_window_of(ws: Seq<WindowInfoView>) -> Option<WindowId> {
    let a = first_where(ws, window_is_active());
    let b = first_where(ws, window_is_shown());
    if a >= 0 {
        Some(ws[a].xid)
    } else if b >= 0 {
        Some(ws[b].xid)
    } else if ws.len() > 0 {
        Some(ws[0].xid)
    } else {
        None
    }
}

/// The key under which an item's position and icon are saved.
pub open spec fn config_key_of(item: DockItemView) -> Seq<char> {
    match item.desktop_id {
        Some(d) => d,
        None => match item.startup_wm_class {
            Some(c) => c,
            None => item.id,
        },
    }
}

/// The folder an applet item opens.
pub open spec fn folder_path_of(id: Seq<char>) -> Option<Seq<char>> {
    if starts_with(id, folder_prefix()) && id.len() > folder_prefix().len() {
        Some(id.subrange(folder_prefix().len() as int, id.len() as int))
    } else {
        None
    }
}

fn primary_window_in(windows: &Vec<WindowInfo>) -> (r: Option<WindowId>)
    ensures
        r == primary_window_of(windows_view(windows@)),
{
    let ghost ws = windows_view(windows@);
    let ghost pa = window_is_active();
    let ghost pb = window_is_shown();
    proof {
        lemma_first_where(ws, pa);
        lemma_first_where(ws, pb);
    }
    let mut i: usize = 0;
    while i < windows.len()
        invariant
            i <= windows.len(),
            ws == windows_view(windows@),
            forall|k: int| 0 <= k < i ==> !(#[trigger] windows@[k]).active,
        decreases windows.len() - i,
    {
        if windows[i].active {
            proof {
                assert(ws[i as int] == windows@[i as int]@);
                lemma_first_where_is(ws, window_is_active(), i as int);
            }
            return Some(windows[i].xid);
        }
        i = i + 1;
    }
    proof {
        assert forall|k: int| 0 <= k < ws.len() implies !pa(#[trigger] ws[k]) by {
            assert(ws[k] == windows@[k]@);
        }
        lemma_first_where_none(ws, pa);
    }
    let mut j: usize = 0;
    while j < windows.len()
        invariant
            j <= windows.len(),
            ws == windows_view(windows@),
            first_where(ws, window_is_active()) == -1,
            forall|k: int| 0 <= k < j ==> (#[trigger] windows@[k]).minimized,
        decreases windows.len() - j,
    {
        if !windows[j].minimized {
            proof {
                assert(ws[j as int] == windows@[j as int]@);
                lemma_first_where_is(ws, window_is_shown(), j as int);
            }
            return Some(windows[j].xid);
        }
        j = j + 1;
    }
    proof {
        assert forall|k: int| 0 <= k < ws.len() implies !pb(#[trigger] ws[k]) by {
            assert(ws[k] == windows@[k]@);
        }
        lemma_first_where_none(ws, pb);
    }
    if windows.len() > 0 {
        Some(windows[0].xid)
    } else {
        None
    }
}

pub(crate) fn active_window_in(windows: &Vec<WindowInfo>) -> (r: Option<WindowId>)
    ensures
        r == primary_window_of(windows_view(windows@)),
{
    primary_window_in(windows)
}

fn folder_name_of(path: &String) -> (r: String)
    ensures
        r@ == folder_name(path@),
{
    let v = chars_of(path.as_str());
    match file_name_vec(&v) {
        Some(f) => {
            if !is_blank_vec(&f) {
                return string_of(&f);
            }
        },
        None => {},
    }
    String::from_str("Folder")
}

impl DockItem {
    fn applet(id: String, name: String, icon_name: String) -> (r: Self)
        ensures
            r@ == applet_view(id@, name@, icon_name@),
    {
        let r = DockItem {
            id,
            name,
            desktop_id: None,
            startup_wm_class: None,
            icon_name: Some(icon_name),
            window_icon: None,
            pinned: true,
            windows: Vec::new(),
            active: false,
            urgent: false,
            badge: None,
        };
        assert(r@.windows =~= Seq::<WindowInfoView>::empty());
        r
    }

    /// The Downloads applet.
    pub fn downloads_applet() -> (r: Self)
        ensures
            r@ == downloads_view(),
    {
        Self::applet(
            String::from_str("applet:downloads"),
            String::from_str("Downloads"),
            String::from_str("folder-download"),
        )
    }

    /// The Trash applet.
    pub fn trash_applet() -> (r: Self)
        ensures
            r@ == trash_view(),
    {
        Self::applet(
            String::from_str("applet:trash"),
            String::from_str("Trash"),
            String::from_str("user-trash"),
        )
    }

    /// A folder applet: its id is the folder prefix followed by the path, its
    /// name the trimmed label (or the folder's name when the label is blank),
    /// its icon the given one or `folder`.
    pub fn folder_applet(label: String, path: String, icon_name: Option<String>) -> (r: Self)
        ensures
            r@ == folder_view(label@, path@, opt_view(icon_name)),
    {
        let label_chars = chars_of(label.as_str());
        let name = if is_blank_vec(&label_chars) {
            folder_name_of(&path)
        } else {
            string_of(&trim_vec(&label_chars))
        };
        let prefix = chars_of("applet:folder:");
        let path_chars = chars_of(path.as_str());
        let id = string_of(&concat_vec(&prefix, &path_chars));
        let icon = match icon_name {
            Some(i) => i,
            None => String::from_str("folder"),
        };
        Self::applet(id, name, icon)
    }

    /// The item for a configured applet; `None` when it names no path.
    pub fn from_applet_config(applet: &AppletConfig) -> (r: Option<Self>)
        ensures
            match r {
                Some(i) => applet_config_item(applet@) == Some(i@),
                None => applet_config_item(applet@) is None,
            },
    {
        match applet.kind {
            AppletKind::Folder => match &applet.path {
                Some(p) => Some(
                    Self::folder_applet(
                        applet.label.clone(),
                        p.clone(),
                        copy_opt_string(&applet.icon_name),
                    ),
                ),
                None => None,
            },
        }
    }

    /// An item for a desktop entry, with no windows yet.
    pub fn from_app(app: &DesktopApp, pinned: bool) -> (r: Self)
        ensures
            r@ == app_item(app@, pinned),
    {
        let r = DockItem {
            id: app.desktop_id.clone(),
            name: app.name.clone(),
            desktop_id: Some(app.desktop_id.clone()),
            startup_wm_class: copy_opt_string(&app.startup_wm_class),
            icon_name: copy_opt_string(&app.icon_name),
            window_icon: None,
            pinned,
            windows: Vec::new(),
            active: false,
            urgent: false,
            badge: None,
        };
        assert(r@.windows =~= Seq::<WindowInfoView>::empty());
        r
    }

    /// An item for a window that no desktop entry claims: named after the
    /// window's class (else title, else "Application"), with id `window:<xid>`.
    pub fn from_window(window: WindowInfo) -> (r: Self)
        ensures
            r@ == window_item(window@),
    {
        let name = match &window.class {
            Some(c) => c.clone(),
            None => match &window.title {
                Some(t) => t.clone(),
                None => String::from_str("Application"),
            },
        };
        let prefix = chars_of("window:");
        let digits = decimal_string(window.xid);
        let id = string_of(&concat_vec(&prefix, &chars_of(digits.as_str())));
        let icon_name = match &window.class {
            Some(c) => Some(lower_string(c.as_str())),
            None => None,
        };
        let mut item = DockItem {
            id,
            name,
            desktop_id: None,
            startup_wm_class: copy_opt_string(&window.class),
            icon_name,
            window_icon: None,
            pinned: false,
            windows: Vec::new(),
            active: false,
            urgent: false,
            badge: None,
        };
        assert(item@.windows =~= Seq::<WindowInfoView>::empty());
        item.push_window(window);
        item
    }

    /// Adds a window to the item; the item keeps the first window icon it got.
    pub fn push_window(&mut self, window: WindowInfo)
        ensures
            final(self)@ == with_window(old(self)@, window@),
    {
        if self.window_icon.is_none() {
            self.window_icon = copy_icon(&window.icon);
        }
        self.windows.push(window);
        assert(final(self)@.windows =~= old(self)@.windows.push(window@));
    }

    /// The window to raise: the active one, else the first not minimized,
    /// else the first.
    pub fn primary_window(&self) -> (r: Option<WindowId>)
        ensures
            r == primary_window_of(self@.windows),
    {
        primary_window_in(&self.windows)
    }

    /// The item has at least one window.
    pub fn is_running(&self) -> (r: bool)
        ensures
            r == (self@.windows.len() > 0),
    {
        self.windows.len() > 0
    }

    /// The kind of item, decided by its id.
    pub fn kind(&self) -> (r: DockItemKind)
        ensures
            r == kind_of(self@.id),
    {
        if str_eq(self.id.as_str(), "applet:downloads") {
            DockItemKind::DownloadsApplet
        } else if str_eq(self.id.as_str(), "applet:trash") {
            DockItemKind::TrashApplet
        } else if starts_with_vec(&chars_of(self.id.as_str()), &chars_of("applet:folder:")) {
            DockItemKind::FolderApplet
        } else {
            DockItemKind::Application
        }
    }

    pub fn is_application(&self) -> (r: bool)
        ensures
            r == (kind_of(self@.id) == DockItemKind::Application),
    {
        self.kind() == DockItemKind::Application
    }

    pub fn is_applet(&self) -> (r: bool)
        ensures
            r == (kind_of(self@.id) != DockItemKind::Application),
    {
        self.kind() != DockItemKind::Application
    }

    pub fn is_downloads_applet(&self) -> (r: bool)
        ensures
            r == (kind_of(self@.id) == DockItemKind::DownloadsApplet),
    {
        self.kind() == DockItemKind::DownloadsApplet
    }

    pub fn is_trash_applet(&self) -> (r: bool)
        ensures
            r == (kind_of(self@.id) == DockItemKind::TrashApplet),
    {
        self.kind() == DockItemKind::TrashApplet
    }

    pub fn is_folder_applet(&self) -> (r: bool)
        ensures
            r == (kind_of(self@.id) == DockItemKind::FolderApplet),
    {
        self.kind() == DockItemKind::FolderApplet
    }

    /// The folder a folder applet opens: the id after the folder prefix,
    /// when that is not empty.
    pub fn folder_applet_path(&self) -> (r: Option<String>)
        ensures
            opt_view(r) == folder_path_of(self@.id),
    {
        let id = chars_of(self.id.as_str());
        let prefix = chars_of("applet:folder:");
        if starts_with_vec(&id, &prefix) && id.len() > prefix.len() {
            Some(string_of(&subvec(&id, prefix.len(), id.len())))
        } else {
            None
        }
    }

    /// The desktop id, else the window class, else the item id.
    pub fn config_key(&self) -> (r: String)
        ensures
            r@ == config_key_of(self@),
    {
        match &self.desktop_id {
            Some(d) => d.clone(),
            None => match &self.startup_wm_class {
                Some(c) => c.clone(),
                None => self.id.clone(),
            },
        }
    }
}

/// The window a click acts on: the first focused window when one is
/// focused; otherwise the first one not minimized; otherwise the first
/// window; none for an item without windows.
pub proof fn lemma_primary_window_prefers_focus(ws: Seq<WindowInfoView>)
    ensures
        ws.len() == 0 ==> primary_window_of(ws) is None,
        (exists|i: int| 0 <= i < ws.len() && (#[trigger] ws[i]).active) ==> exists|i: int|
            0 <= i < ws.len() && ws[i].active && (forall|j: int| 0 <= j < i ==> !(#[trigger] ws[j]).active)
                && primary_window_of(ws) == Some((#[trigger] ws[i]).xid),
        (forall|i: int| 0 <= i < ws.len() ==> !(#[trigger] ws[i]).active) && (exists|i: int|
            0 <= i < ws.len() && !(#[trigger] ws[i]).minimized) ==> exists|i: int|
            0 <= i < ws.len() && !ws[i].minimized && (forall|j: int| 0 <= j < i ==> (#[trigger] ws[j]).minimized)
                && primary_window_of(ws) == Some((#[trigger] ws[i]).xid),
        (forall|i: int| 0 <= i < ws.len() ==> !(#[trigger] ws[i]).active && (#[trigger] ws[i]).minimized)
            && ws.len() > 0 ==> primary_window_of(ws) == Some(ws[0].xid),
{
    lemma_first_where(ws, window_is_active());
    lemma_first_where(ws, window_is_shown());
    let a = first_where(ws, window_is_active());
    let b = first_where(ws, window_is_shown());
    if exists|i: int| 0 <= i < ws.len() && (#[trigger] ws[i]).active {
        let i = choose|i: int| 0 <= i < ws.len() && (#[trigger] ws[i]).active;
        assert(window_is_active()(ws[i]));
        assert(a >= 0);
        assert(ws[a].active);
    }
    if (forall|i: int| 0 <= i < ws.len() ==> !(#[trigger] ws[i]).active) && (exists|i: int|
        0 <= i < ws.len() && !(#[trigger] ws[i]).minimized) {
        let i = choose|i: int| 0 <= i < ws.len() && !(#[trigger] ws[i]).minimized;
        assert(window_is_shown()(ws[i]));
        assert(b >= 0);
        if a >= 0 {
            assert(ws[a].active);
        }
        assert(!ws[b].minimized);
    }
    if (forall|i: int| 0 <= i < ws.len() ==> !(#[trigger] ws[i]).active && (#[trigger] ws[i]).minimized) && ws.len() > 0 {
        if a >= 0 {
            assert(ws[a].active);
        }
        if b >= 0 {
            assert(!ws[b].minimized);
        }
    }
}

} // verus!
