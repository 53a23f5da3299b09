//! Reducing a debounced batch of filesystem events to the actions that keep
//! the development server consistent, and the order in which they run.

use vstd::prelude::*;
use vstd::string::*;
use crate::paths::SitePaths;
use crate::routes::{extension_of, is_document, html_artifact_of, meta_artifact_of, html_artifact, meta_artifact, extension, is_norg_document};
use crate::text::{has_prefix, has_suffix, starts_with, ends_with, str_eq};
use crate::convert::texts;

verus! {

/// The kind of a filesystem event.
#[derive(PartialEq, Eq, Structural, Clone, Copy, Debug)]
pub enum EventKind {
    Create,
    Remove,
    ModifyData,
    /// Any other change: access, metadata, rename.
    Other,
}

/// A filesystem event: its kind and the paths it concerns.
pub struct WatchEvent {
    pub kind: EventKind,
    pub paths: Vec<String>,
}

/// What one batch of events asks for.
pub struct FileActions {
    pub reload_templates: bool,
    pub reload_assets: bool,
    /// The listing of the collection must be gathered again.
    pub reload_content: bool,
    /// Documents to convert again.
    pub rebuild_paths: Vec<String>,
    /// Intermediate artifacts to delete.
    pub cleanup_paths: Vec<String>,
}

/// The actions of a batch, by their texts.
pub struct ActionsView {
    pub templates: bool,
    pub assets: bool,
    pub content: bool,
    pub rebuild: Seq<Seq<char>>,
    pub cleanup: Seq<Seq<char>>,
}

impl View for FileActions {
    type V = ActionsView;

    open spec fn view(&self) -> ActionsView {
        ActionsView {
            templates: self.reload_templates,
            assets: self.reload_assets,
            content: self.reload_content,
            rebuild: texts(self.rebuild_paths@),
            cleanup: texts(self.cleanup_paths@),
        }
    }
}

pub open spec fn no_actions() -> ActionsView {
    ActionsView { templates: false, assets: false, content: false, rebuild: Seq::empty(), cleanup: Seq::empty() }
}

/// `p` lies inside the directory `dir`.
pub open spec fn within(p: Seq<char>, dir: Seq<char>) -> bool {
    has_prefix(p, dir + "/"@)
}

/// An event kind that may change what is served.
pub open spec fn relevant_kind(k: EventKind) -> bool {
    k != EventKind::Other
}

/// A backup file left by an editor.
pub open spec fn is_backup(p: Seq<char>) -> bool {
    has_suffix(p, "~"@)
}

/// What the event of kind `k` on `p` asks for, in a project laid out as `paths`.
pub open spec fn classify(k: EventKind, p: Seq<char>, paths: SitePaths) -> ActionsView {
    if !relevant_kind(k) || is_backup(p) {
        no_actions()
    } else {
        let in_content = within(p, paths.content@);
        let rel = p.skip((paths.content@.len() + 1) as int);
        ActionsView {
            templates: extension_of(p) == Some("html"@) && (within(p, paths.templates@) || within(
                p,
                paths.theme_templates@,
            )),
            assets: within(p, paths.assets@) || within(p, paths.theme_assets@),
            content: in_content,
            rebuild: if in_content && k != EventKind::Remove {
                seq![p]
            } else {
                Seq::empty()
            },
            cleanup: if in_content && k == EventKind::Remove && is_document(rel) {
                seq![
                    paths.build@ + "/"@ + html_artifact_of(rel),
                    paths.build@ + "/"@ + meta_artifact_of(rel),
                ]
            } else {
                Seq::empty()
            },
        }
    }
}

/// Two sets of actions together: flags joined by `or`, lists one after the other.
pub open spec fn combine(a: ActionsView, b: ActionsView) -> ActionsView {
    ActionsView {
        templates: a.templates || b.templates,
        assets: a.assets || b.assets,
        content: a.content || b.content,
        rebuild: a.rebuild + b.rebuild,
        cleanup: a.cleanup + b.cleanup,
    }
}

/// What an event asks for: the event on its first path, nothing when it has none.
pub open spec fn event_actions(e: WatchEvent, paths: SitePaths) -> ActionsView {
    if e.paths@.len() == 0 {
        no_actions()
    } else {
        classify(e.kind, e.paths@[0]@, paths)
    }
}

/// What a batch of events asks for, in the order of the events.
pub open spec fn batch_actions(events: Seq<WatchEvent>, paths: SitePaths) -> ActionsView
    decreases events.len(),
{
    if events.len() == 0 {
        no_actions()
    } else {
        combine(batch_actions(events.drop_last(), paths), event_actions(events.last(), paths))
    }
}

/// Whether `p` lies inside the directory `dir`.
pub fn is_within(p: &str, dir: &str) -> (r: bool)
    ensures
        r == within(p@, dir@),
{
    let mut d = String::from_str(dir);
    d.append("/");
    starts_with(p, d.as_str())
}

impl FileActions {
    /// No action.
    pub fn new() -> (r: FileActions)
        ensures
            r@ == no_actions(),
    {
        let r = FileActions {
            reload_templates: false,
            reload_assets: false,
            reload_content: false,
            rebuild_paths: Vec::new(),
            cleanup_paths: Vec::new(),
        };
        assert(r@.rebuild =~= Seq::<Seq<char>>::empty());
        assert(r@.cleanup =~= Seq::<Seq<char>>::empty());
        r
    }

    /// Adds what the event of kind `kind` on `path` asks for.
    pub fn add_event(&mut self, kind: EventKind, path: &str, paths: &SitePaths)
        ensures
            final(self)@ == combine(old(self)@, classify(kind, path@, *paths)),
    {
        proof {
            reveal_strlit("~");
            reveal_strlit("/");
        }
        let ghost before = self@;
        if kind == EventKind::Other || ends_with(path, "~") {
            assert(before.rebuild + Seq::<Seq<char>>::empty() =~= before.rebuild);
            assert(before.cleanup + Seq::<Seq<char>>::empty() =~= before.cleanup);
            return;
        }
        let is_html = match extension(path) {
            Some(e) => str_eq(e.as_str(), "html"),
            None => false,
        };
        if is_html && (is_within(path, paths.templates.as_str()) || is_within(path, paths.theme_templates.as_str())) {
            self.reload_templates = true;
        }
        if is_within(path, paths.assets.as_str()) || is_within(path, paths.theme_assets.as_str()) {
            self.reload_assets = true;
        }
        if is_within(path, paths.content.as_str()) {
            self.reload_content = true;
            if kind == EventKind::Remove {
                let n = path.unicode_len();
                let start = paths.content.as_str().unicode_len() + 1;
                let rel = path.substring_char(start, n);
                assert(rel@ =~= path@.skip((paths.content@.len() + 1) as int));
                if is_norg_document(rel) {
                    let mut h = String::from_str(paths.build.as_str());
                    h.append("/");
                    h.append(html_artifact(rel).as_str());
                    let mut m = String::from_str(paths.build.as_str());
                    m.append("/");
                    m.append(meta_artifact(rel).as_str());
                    self.cleanup_paths.push(h);
                    self.cleanup_paths.push(m);
                }
            } else {
                self.rebuild_paths.push(String::from_str(path));
            }
        }
        assert(self@.rebuild =~= combine(before, classify(kind, path@, *paths)).rebuild);
        assert(self@.cleanup =~= combine(before, classify(kind, path@, *paths)).cleanup);
    }
}

/// Reduces a batch of events to the actions it asks for: each event counts by
/// its first path, flags are joined by `or`, and the paths to rebuild and to
/// clean up keep the order of the events.
pub fn reduce_events(events: &Vec<WatchEvent>, paths: &SitePaths) -> (r: FileActions)
    ensures
        r@ == batch_actions(events@, *paths),
{
    let mut actions = FileActions::new();
    let mut i: usize = 0;
    assert(events@.take(0) =~= Seq::<WatchEvent>::empty());
    while i < events.len()
        invariant
            i <= events@.len(),
            actions@ == batch_actions(events@.take(i as int), *paths),
        decreases events.len() - i,
    {
        assert(events@.take(i + 1).drop_last() =~= events@.take(i as int));
        assert(events@.take(i + 1).last() == events@[i as int]);
        let ev = &events[i];
        if ev.paths.len() > 0 {
            actions.add_event(ev.kind, ev.paths[0].as_str(), paths);
        } else {
            let ghost a = actions@;
            assert(a.rebuild + Seq::<Seq<char>>::empty() =~= a.rebuild);
            assert(a.cleanup + Seq::<Seq<char>>::empty() =~= a.cleanup);
        }
        i = i + 1;
    }
    assert(events@.take(events@.len() as int) =~= events@);
    actions
}

/// A flag of a batch is set exactly when some event of the batch sets it.
pub proof fn lemma_batch_flags(events: Seq<WatchEvent>, paths: SitePaths)
    ensures
        batch_actions(events, paths).templates <==> exists|i: int|
            0 <= i < events.len() && #[trigger] event_actions(events[i], paths).templates,
        batch_actions(events, paths).assets <==> exists|i: int|
            0 <= i < events.len() && #[trigger] event_actions(events[i], paths).assets,
        batch_actions(events, paths).content <==> exists|i: int|
            0 <= i < events.len() && #[trigger] event_actions(events[i], paths).content,
    decreases events.len(),
{
    if events.len() > 0 {
        let init = events.drop_last();
        lemma_batch_flags(init, paths);
        assert forall|i: int| 0 <= i < init.len() implies #[trigger] init[i] == events[i] by {}
        let last = events.len() - 1;
        assert(events[last] == events.last());
        if batch_actions(init, paths).templates {
            let i = choose|i: int| 0 <= i < init.len() && #[trigger] event_actions(init[i], paths).templates;
            assert(event_actions(events[i], paths).templates);
        }
        if batch_actions(init, paths).assets {
            let i = choose|i: int| 0 <= i < init.len() && #[trigger] event_actions(init[i], paths).assets;
            assert(event_actions(events[i], paths).assets);
        }
        if batch_actions(init, paths).content {
            let i = choose|i: int| 0 <= i < init.len() && #[trigger] event_actions(init[i], paths).content;
            assert(event_actions(events[i], paths).content);
        }
        if exists|i: int| 0 <= i < events.len() && #[trigger] event_actions(events[i], paths).templates {
            let i = choose|i: int| 0 <= i < events.len() && #[trigger] event_actions(events[i], paths).templates;
            if i < last {
                assert(event_actions(init[i], paths).templates);
            }
        }
        if exists|i: int| 0 <= i < events.len() && #[trigger] event_actions(events[i], paths).assets {
            let i = choose|i: int| 0 <= i < events.len() && #[trigger] event_actions(events[i], paths).assets;
            if i < last {
                assert(event_actions(init[i], paths).assets);
            }
        }
        if exists|i: int| 0 <= i < events.len() && #[trigger] event_actions(events[i], paths).content {
            let i = choose|i: int| 0 <= i < events.len() && #[trigger] event_actions(events[i], paths).content;
            if i < last {
                assert(event_actions(init[i], paths).content);
            }
        }
    }
}

/// One step of carrying out the actions of a batch.
pub enum Step {
    /// Tell every connected browser to reload.
    PulseReload,
    /// Build the template engine anew from the template directories.
    ReloadTemplates,
    /// Convert the document at this path again.
    Rebuild(String),
    /// Gather the listing of the collection again.
    RecollectListing,
    /// Delete this intermediate artifact.
    RemoveArtifact(String),
}

pub enum StepView {
    PulseReload,
    ReloadTemplates,
    Rebuild(Seq<char>),
    RecollectListing,
    RemoveArtifact(Seq<char>),
}

impl View for Step {
    type V = StepView;

    open spec fn view(&self) -> StepView {
        match self {
            Step::PulseReload => StepView::PulseReload,
            Step::ReloadTemplates => StepView::ReloadTemplates,
            Step::Rebuild(p) => StepView::Rebuild(p@),
            Step::RecollectListing => StepView::RecollectListing,
            Step::RemoveArtifact(p) => StepView::RemoveArtifact(p@),
        }
    }
}

pub open spec fn rebuild_steps(ps: Seq<Seq<char>>) -> Seq<StepView> {
    ps.map_values(|p: Seq<char>| StepView::Rebuild(p))
}

pub open spec fn remove_steps(ps: Seq<Seq<char>>) -> Seq<StepView> {
    ps.map_values(|p: Seq<char>| StepView::RemoveArtifact(p))
}

/// The steps that carry out `a`, in order: a reload for changed assets; a new
/// template engine for changed templates (its reload follows only when that
/// succeeds, see `after_template_reload`); for changed content,
/// each document converted again, the listing gathered again and a reload;
/// last, the artifacts of removed documents deleted.
pub open spec fn steps_of(a: ActionsView) -> Seq<StepView> {
    (if a.assets { seq![StepView::PulseReload] } else { Seq::empty() })
        + (if a.templates { seq![StepView::ReloadTemplates] } else { Seq::empty() })
        + (if a.content {
            rebuild_steps(a.rebuild) + seq![StepView::RecollectListing, StepView::PulseReload]
        } else {
            Seq::empty()
        }) + remove_steps(a.cleanup)
}

pub open spec fn step_views(s: Seq<Step>) -> Seq<StepView> {
    s.map_values(|x: Step| x@)
}

/// The steps that carry out `actions`, in the order they must run.
pub fn plan_steps(actions: &FileActions) -> (r: Vec<Step>)
    ensures
        step_views(r@) == steps_of(actions@),
{
    let mut out: Vec<Step> = Vec::new();
    if actions.reload_assets {
        out.push(Step::PulseReload);
    }
    if actions.reload_templates {
        out.push(Step::ReloadTemplates);
    }
    let ghost a = actions@;
    let ghost head = (if a.assets { seq![StepView::PulseReload] } else { Seq::<StepView>::empty() })
        + (if a.templates { seq![StepView::ReloadTemplates] } else { Seq::<StepView>::empty() });
    assert(step_views(out@) =~= head);
    if actions.reload_content {
        let mut i: usize = 0;
        assert(rebuild_steps(a.rebuild.take(0)) =~= Seq::<StepView>::empty());
        assert(step_views(out@) =~= head + rebuild_steps(a.rebuild.take(0)));
        while i < actions.rebuild_paths.len()
            invariant
                i <= actions.rebuild_paths@.len(),
                a == actions@,
                step_views(out@) == head + rebuild_steps(a.rebuild.take(i as int)),
            decreases actions.rebuild_paths.len() - i,
        {
            let ghost before = step_views(out@);
            let ghost p = actions.rebuild_paths@[i as int]@;
            out.push(Step::Rebuild(actions.rebuild_paths[i].clone()));
            assert(step_views(out@) =~= before.push(StepView::Rebuild(p)));
            assert(a.rebuild.take(i + 1) =~= a.rebuild.take(i as int).push(p));
            assert(rebuild_steps(a.rebuild.take(i + 1)) =~= rebuild_steps(a.rebuild.take(i as int)).push(StepView::Rebuild(p)));
            assert(step_views(out@) =~= head + rebuild_steps(a.rebuild.take(i + 1)));
            i = i + 1;
        }
        assert(a.rebuild.take(a.rebuild.len() as int) =~= a.rebuild);
        let ghost before = step_views(out@);
        out.push(Step::RecollectListing);
        out.push(Step::PulseReload);
        assert(step_views(out@) =~= before + seq![StepView::RecollectListing, StepView::PulseReload]);
    } else {
        assert(step_views(out@) =~= head + Seq::<StepView>::empty());
    }
    let ghost mid = step_views(out@);
    assert(mid =~= head + (if a.content {
        rebuild_steps(a.rebuild) + seq![StepView::RecollectListing, StepView::PulseReload]
    } else {
        Seq::<StepView>::empty()
    }));
    let mut j: usize = 0;
    assert(remove_steps(a.cleanup.take(0)) =~= Seq::<StepView>::empty());
    assert(step_views(out@) =~= mid + remove_steps(a.cleanup.take(0)));
    while j < actions.cleanup_paths.len()
        invariant
            j <= actions.cleanup_paths@.len(),
            a == actions@,
            step_views(out@) == mid + remove_steps(a.cleanup.take(j as int)),
        decreases actions.cleanup_paths.len() - j,
    {
        let ghost before = step_views(out@);
        let ghost p = actions.cleanup_paths@[j as int]@;
        out.push(Step::RemoveArtifact(actions.cleanup_paths[j].clone()));
        assert(step_views(out@) =~= before.push(StepView::RemoveArtifact(p)));
        assert(a.cleanup.take(j + 1) =~= a.cleanup.take(j as int).push(p));
        assert(remove_steps(a.cleanup.take(j + 1)) =~= remove_steps(a.cleanup.take(j as int)).push(StepView::RemoveArtifact(p)));
        assert(step_views(out@) =~= mid + remove_steps(a.cleanup.take(j + 1)));
        j = j + 1;
    }
    assert(a.cleanup.take(a.cleanup.len() as int) =~= a.cleanup);
    out
}


/// The steps that follow the rebuild of the template engine: a reload when
/// the new engine was built; none when building it failed, so that the
/// attempt is abandoned and the engine in use stays as it was.
pub fn after_template_reload(succeeded: bool) -> (r: Vec<Step>)
    ensures
        succeeded ==> step_views(r@) == seq![StepView::PulseReload],
        !succeeded ==> r@.len() == 0,
{
    let mut out: Vec<Step> = Vec::new();
    if succeeded {
        out.push(Step::PulseReload);
        assert(step_views(out@) =~= seq![StepView::PulseReload]);
    }
    out
}

} // verus!
