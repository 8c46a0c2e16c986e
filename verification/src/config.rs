//! Reading the configuration: which file counts, what is merged and which error is told.

use vstd::prelude::*;

use crate::collections::IdMap;
use crate::keymap::key::{KeyEvent, Mode};
use crate::keymap::trie;
use crate::keymap::trie::{merge_keys, KeyTrie};

verus! {

/// How deep the tables of two files are merged.
pub const MERGE_DEPTH: usize = 3;

/// Why a configuration could not be loaded.
#[derive(Debug)]
pub enum ConfigLoadError {
    /// A file does not say what can be said in it.
    BadConfig(String),
    /// The configuration of plugins contradicts itself.
    Plugin(String),
    /// A file could not be read.
    Error { not_found: bool, reason: String },
}

impl ConfigLoadError {
    pub open spec fn is_not_found(self) -> bool {
        match self {
            ConfigLoadError::Error { not_found, .. } => not_found,
            _ => false,
        }
    }

    pub open spec fn spec_message(self) -> Seq<char> {
        match self {
            ConfigLoadError::BadConfig(reason) => reason@,
            ConfigLoadError::Plugin(reason) => reason@,
            ConfigLoadError::Error { reason, .. } => reason@,
        }
    }

    /// Whether there is no file.
    pub fn not_found(&self) -> (r: bool)
        ensures
            r == self.is_not_found(),
    {
        match self {
            ConfigLoadError::Error { not_found, .. } => *not_found,
            _ => false,
        }
    }

    pub fn message(&self) -> (r: &str)
        ensures
            r@ == self.spec_message(),
    {
        match self {
            ConfigLoadError::BadConfig(reason) => reason.as_str(),
            ConfigLoadError::Plugin(reason) => reason.as_str(),
            ConfigLoadError::Error { reason, .. } => reason.as_str(),
        }
    }
}

impl Default for ConfigLoadError {
    fn default() -> (r: Self)
        ensures
            r.is_not_found(),
            r.spec_message() == "place holder"@,
    {
        ConfigLoadError::Error { not_found: true, reason: "place holder".to_owned() }
    }
}

/// What a file says. `V` is a section as it was read, `T` a choice of themes.
#[derive(Debug)]
pub struct ConfigRaw<T, V> {
    pub theme: Option<T>,
    pub keys: Option<IdMap<Mode, KeyTrie>>,
    pub editor: Option<V>,
    pub pkg: Option<V>,
    pub plugins: Option<V>,
    pub icons: Option<V>,
}

/// Where a section comes from.
#[derive(Debug)]
#[allow(inconsistent_fields)]
pub enum Section<V> {
    /// No file has it.
    Default,
    /// One file has it.
    Value(V),
    /// Both have it: the local one goes over the global one, to a depth of [`MERGE_DEPTH`].
    Merged { global: V, local: V },
}

pub open spec fn section_of<V>(global: Option<V>, local: Option<V>) -> Section<V> {
    match (global, local) {
        (None, None) => Section::Default,
        (None, Some(value)) => Section::Value(value),
        (Some(value), None) => Section::Value(value),
        (Some(global), Some(local)) => Section::Merged { global, local },
    }
}

/// Puts a section together from what two files say.
pub fn merge_section<V>(global: Option<V>, local: Option<V>) -> (r: Section<V>)
    ensures
        r == section_of(global, local),
{
    match (global, local) {
        (None, None) => Section::Default,
        (None, Some(value)) => Section::Value(value),
        (Some(value), None) => Section::Value(value),
        (Some(global), Some(local)) => Section::Merged { global, local },
    }
}

/// What is to be loaded: the sections that are still to be converted.
#[derive(Debug)]
pub struct ConfigPlan<T, V> {
    /// Whether there are two files.
    pub merged: bool,
    pub theme: Option<T>,
    pub keys: IdMap<Mode, KeyTrie>,
    pub editor: Section<V>,
    pub pkg: Section<V>,
    pub plugins: Section<V>,
    pub icons: Section<V>,
}

/// Bindings of modes that can be merged.
pub open spec fn keys_wf(keys: IdMap<Mode, KeyTrie>) -> bool {
    &&& keys.wf()
    &&& forall|m: Mode| #[trigger]
        keys@.dom().contains(m) ==> keys@[m].wf() && keys@[m] is Node
}

pub open spec fn raw_wf<T, V>(raw: Result<ConfigRaw<T, V>, ConfigLoadError>) -> bool {
    match raw {
        Ok(ConfigRaw { keys: Some(keys), .. }) => keys_wf(keys),
        _ => true,
    }
}

/// `keys` are the bindings of `base` with those of `delta` merged in, mode by mode.
pub open spec fn keys_merged(
    keys: IdMap<Mode, KeyTrie>,
    base: IdMap<Mode, KeyTrie>,
    delta: Option<IdMap<Mode, KeyTrie>>,
) -> bool {
    match delta {
        None => keys == base,
        Some(delta) => {
            &&& keys.order() == base.order()
            &&& keys@.dom() == base@.dom()
            &&& forall|m: Mode| #[trigger]
                base@.dom().contains(m) && delta@.dom().contains(m) ==> trie::trie_is_merge(
                    keys@[m],
                    base@[m],
                    delta@[m],
                )
            &&& forall|m: Mode| #[trigger]
                base@.dom().contains(m) && !delta@.dom().contains(m) ==> exists|nothing: KeyTrie|
                    trie::is_empty_node(nothing) && #[trigger] trie::trie_is_merge(
                        keys@[m],
                        base@[m],
                        nothing,
                    )
        },
    }
}

fn merge_into(base: IdMap<Mode, KeyTrie>, delta: Option<IdMap<Mode, KeyTrie>>) -> (r: IdMap<
    Mode,
    KeyTrie,
>)
    requires
        keys_wf(base),
        delta matches Some(delta) ==> keys_wf(delta),
    ensures
        keys_wf(r),
        keys_merged(r, base, delta),
{
    match delta {
        None => base,
        Some(delta) => {
            let mut keys = base;
            merge_keys(&mut keys, &delta);
            keys
        },
    }
}

/// `plan` is what two files and the default bindings make: the local file goes over the global
/// one.
pub open spec fn both_planned<T, V>(
    plan: ConfigPlan<T, V>,
    defaults: IdMap<Mode, KeyTrie>,
    global: ConfigRaw<T, V>,
    local: ConfigRaw<T, V>,
) -> bool {
    &&& plan.merged
    &&& plan.theme == if local.theme is Some {
        local.theme
    } else {
        global.theme
    }
    &&& exists|middle: IdMap<Mode, KeyTrie>| #[trigger]
        keys_merged(middle, defaults, global.keys) && keys_merged(plan.keys, middle, local.keys)
    &&& plan.editor == section_of(global.editor, local.editor)
    &&& plan.pkg == section_of(global.pkg, local.pkg)
    &&& plan.plugins == section_of(global.plugins, local.plugins)
    &&& plan.icons == section_of(global.icons, local.icons)
}

/// `plan` is what one file and the default bindings make.
pub open spec fn one_planned<T, V>(
    plan: ConfigPlan<T, V>,
    defaults: IdMap<Mode, KeyTrie>,
    file: ConfigRaw<T, V>,
) -> bool {
    &&& !plan.merged
    &&& plan.theme == file.theme
    &&& keys_merged(plan.keys, defaults, file.keys)
    &&& plan.editor == section_of(file.editor, None)
    &&& plan.pkg == section_of(file.pkg, None)
    &&& plan.plugins == section_of(file.plugins, None)
    &&& plan.icons == section_of(file.icons, None)
}

/// `plan` is what the two files make. A file that says what cannot be said is an error, of the
/// local file first. One that cannot be read is passed over, unless there is no other: then the
/// error is that of the global file.
pub open spec fn planned<T, V>(
    plan: Result<ConfigPlan<T, V>, ConfigLoadError>,
    defaults: IdMap<Mode, KeyTrie>,
    global: Result<ConfigRaw<T, V>, ConfigLoadError>,
    local: Result<ConfigRaw<T, V>, ConfigLoadError>,
) -> bool {
    match (global, local) {
        (Ok(global), Ok(local)) => match plan {
            Ok(plan) => both_planned(plan, defaults, global, local),
            Err(_) => false,
        },
        (_, Err(ConfigLoadError::BadConfig(reason))) => plan == Err::<ConfigPlan<T, V>, _>(
            ConfigLoadError::BadConfig(reason),
        ),
        (Err(ConfigLoadError::BadConfig(reason)), _) => plan == Err::<ConfigPlan<T, V>, _>(
            ConfigLoadError::BadConfig(reason),
        ),
        (Ok(file), Err(_)) => match plan {
            Ok(plan) => one_planned(plan, defaults, file),
            Err(_) => false,
        },
        (Err(_), Ok(file)) => match plan {
            Ok(plan) => one_planned(plan, defaults, file),
            Err(_) => false,
        },
        (Err(error), Err(_)) => plan == Err::<ConfigPlan<T, V>, _>(error),
    }
}

fn plan_one<T, V>(defaults: IdMap<Mode, KeyTrie>, file: ConfigRaw<T, V>) -> (r: ConfigPlan<T, V>)
    requires
        keys_wf(defaults),
        file.keys matches Some(keys) ==> keys_wf(keys),
    ensures
        one_planned(r, defaults, file),
        keys_wf(r.keys),
{
    ConfigPlan {
        merged: false,
        theme: file.theme,
        keys: merge_into(defaults, file.keys),
        editor: merge_section(file.editor, None),
        pkg: merge_section(file.pkg, None),
        plugins: merge_section(file.plugins, None),
        icons: merge_section(file.icons, None),
    }
}

fn plan_both<T, V>(
    defaults: IdMap<Mode, KeyTrie>,
    global: ConfigRaw<T, V>,
    local: ConfigRaw<T, V>,
) -> (r: ConfigPlan<T, V>)
    requires
        keys_wf(defaults),
        global.keys matches Some(keys) ==> keys_wf(keys),
        local.keys matches Some(keys) ==> keys_wf(keys),
    ensures
        both_planned(r, defaults, global, local),
        keys_wf(r.keys),
{
    let middle = merge_into(defaults, global.keys);
    let ghost kept = middle;
    let keys = merge_into(middle, local.keys);
    assert(keys_merged(kept, defaults, global.keys) && keys_merged(keys, kept, local.keys));
    let theme = match local.theme {
        Some(theme) => Some(theme),
        None => global.theme,
    };
    ConfigPlan {
        merged: true,
        theme,
        keys,
        editor: merge_section(global.editor, local.editor),
        pkg: merge_section(global.pkg, local.pkg),
        plugins: merge_section(global.plugins, local.plugins),
        icons: merge_section(global.icons, local.icons),
    }
}

/// Decides what is to be loaded from the files of the user and of the workspace.
pub fn plan<T, V>(
    defaults: IdMap<Mode, KeyTrie>,
    global: Result<ConfigRaw<T, V>, ConfigLoadError>,
    local: Result<ConfigRaw<T, V>, ConfigLoadError>,
) -> (r: Result<ConfigPlan<T, V>, ConfigLoadError>)
    requires
        keys_wf(defaults),
        raw_wf(global),
        raw_wf(local),
    ensures
        planned(r, defaults, global, local),
        r matches Ok(plan) ==> keys_wf(plan.keys),
{
    match (global, local) {
        (Ok(global), Ok(local)) => Ok(plan_both(defaults, global, local)),
        (_, Err(ConfigLoadError::BadConfig(reason))) => Err(ConfigLoadError::BadConfig(reason)),
        (Err(ConfigLoadError::BadConfig(reason)), _) => Err(ConfigLoadError::BadConfig(reason)),
        (Ok(file), Err(_)) => Ok(plan_one(defaults, file)),
        (Err(_), Ok(file)) => Ok(plan_one(defaults, file)),
        (Err(error), Err(_)) => Err(error),
    }
}

/// What the sections of a plan were converted to. A section without a value converts to its
/// default.
#[derive(Debug)]
pub struct Converted<E, K, P, I> {
    pub editor: Result<E, String>,
    /// The configuration of packages, if there is one.
    pub pkg: Result<Option<K>, String>,
    pub plugins: Result<P, String>,
    /// Whether the configuration of plugins agrees with itself.
    pub plugins_valid: Result<(), String>,
    pub icons: Result<I, String>,
}

/// A configuration.
#[derive(Debug)]
pub struct Config<T, E, K, P> {
    pub theme: Option<T>,
    pub keys: IdMap<Mode, KeyTrie>,
    pub editor: E,
    /// Packages, where they are configured apart from the editor.
    pub pkg: Option<K>,
    pub plugins: P,
}

/// The outcome of loading: the configuration, and the icons to use from now on.
#[derive(Debug)]
pub struct Loaded<T, E, K, P, I> {
    pub config: Result<Config<T, E, K, P>, ConfigLoadError>,
    pub icons: Option<I>,
}

fn bad<T, E, K, P, I>(reason: String, icons: Option<I>) -> (r: Loaded<T, E, K, P, I>)
    ensures
        r.config == Err::<Config<T, E, K, P>, _>(ConfigLoadError::BadConfig(reason)),
        r.icons == icons,
{
    Loaded { config: Err(ConfigLoadError::BadConfig(reason)), icons }
}

/// The first error among the sections of two files: those of the editor, the packages, the
/// plugins and the icons are converted in this order.
pub open spec fn both_error<E, K, P, I>(c: Converted<E, K, P, I>) -> Option<ConfigLoadError> {
    match (c.editor, c.pkg, c.plugins, c.plugins_valid, c.icons) {
        (Err(reason), _, _, _, _) => Some(ConfigLoadError::BadConfig(reason)),
        (_, Err(reason), _, _, _) => Some(ConfigLoadError::BadConfig(reason)),
        (_, _, Err(reason), _, _) => Some(ConfigLoadError::BadConfig(reason)),
        (_, _, _, Err(reason), _) => Some(ConfigLoadError::Plugin(reason)),
        (_, _, _, _, Err(reason)) => Some(ConfigLoadError::BadConfig(reason)),
        _ => None,
    }
}

/// The first error among the sections of one file: those of the icons, the plugins, the editor
/// and the packages are converted in this order.
pub open spec fn one_error<E, K, P, I>(c: Converted<E, K, P, I>) -> Option<ConfigLoadError> {
    match (c.icons, c.plugins, c.plugins_valid, c.editor, c.pkg) {
        (Err(reason), _, _, _, _) => Some(ConfigLoadError::BadConfig(reason)),
        (_, Err(reason), _, _, _) => Some(ConfigLoadError::BadConfig(reason)),
        (_, _, Err(reason), _, _) => Some(ConfigLoadError::Plugin(reason)),
        (_, _, _, Err(reason), _) => Some(ConfigLoadError::BadConfig(reason)),
        (_, _, _, _, Err(reason)) => Some(ConfigLoadError::BadConfig(reason)),
        _ => None,
    }
}

pub open spec fn load_error<T, V, E, K, P, I>(
    plan: ConfigPlan<T, V>,
    c: Converted<E, K, P, I>,
) -> Option<ConfigLoadError> {
    if plan.merged {
        both_error(c)
    } else {
        one_error(c)
    }
}

/// The icons of two files are used only if everything else is in order, those of one file as soon
/// as they are known.
pub open spec fn loaded_icons<T, V, E, K, P, I>(
    plan: ConfigPlan<T, V>,
    c: Converted<E, K, P, I>,
) -> Option<I> {
    if plan.merged && both_error(c) is Some {
        None
    } else {
        match c.icons {
            Ok(icons) => Some(icons),
            Err(_) => None,
        }
    }
}

impl<T, E, K, P> Config<T, E, K, P> {
    /// The configuration of somebody who has no files: no theme is chosen, and nothing is said of
    /// packages.
    pub fn of_defaults(keys: IdMap<Mode, KeyTrie>, editor: E, plugins: P) -> (r: Self)
        ensures
            r.theme is None,
            r.keys == keys,
            r.editor == editor,
            r.pkg is None,
            r.plugins == plugins,
    {
        Config { theme: None, keys, editor, pkg: None, plugins }
    }

    /// Puts the configuration together from the converted sections.
    pub fn load<V, I>(plan: ConfigPlan<T, V>, converted: Converted<E, K, P, I>) -> (r: Loaded<
        T,
        E,
        K,
        P,
        I,
    >)
        ensures
            r.icons == loaded_icons(plan, converted),
            match r.config {
                Ok(config) => {
                    &&& load_error(plan, converted) is None
                    &&& config.theme == plan.theme
                    &&& config.keys == plan.keys
                    &&& converted.editor == Ok::<E, String>(config.editor)
                    &&& converted.pkg == Ok::<Option<K>, String>(config.pkg)
                    &&& converted.plugins == Ok::<P, String>(config.plugins)
                },
                Err(error) => load_error(plan, converted) == Some(error),
            },
    {
        if plan.merged {
            let editor = match converted.editor {
                Ok(editor) => editor,
                Err(reason) => {
                    return bad(reason, None);
                },
            };
            let pkg = match converted.pkg {
                Ok(pkg) => pkg,
                Err(reason) => {
                    return bad(reason, None);
                },
            };
            let plugins = match converted.plugins {
                Ok(plugins) => plugins,
                Err(reason) => {
                    return bad(reason, None);
                },
            };
            if let Err(reason) = converted.plugins_valid {
                return Loaded { config: Err(ConfigLoadError::Plugin(reason)), icons: None };
            }
            let icons = match converted.icons {
                Ok(icons) => icons,
                Err(reason) => {
                    return bad(reason, None);
                },
            };
            let config = Config { theme: plan.theme, keys: plan.keys, editor, pkg, plugins };
            Loaded { config: Ok(config), icons: Some(icons) }
        } else {
            let icons = match converted.icons {
                Ok(icons) => icons,
                Err(reason) => {
                    return bad(reason, None);
                },
            };
            let plugins = match converted.plugins {
                Ok(plugins) => plugins,
                Err(reason) => {
                    return bad(reason, Some(icons));
                },
            };
            if let Err(reason) = converted.plugins_valid {
                return Loaded { config: Err(ConfigLoadError::Plugin(reason)), icons: Some(icons) };
            }
            let editor = match converted.editor {
                Ok(editor) => editor,
                Err(reason) => {
                    return bad(reason, Some(icons));
                },
            };
            let pkg = match converted.pkg {
                Ok(pkg) => pkg,
                Err(reason) => {
                    return bad(reason, Some(icons));
                },
            };
            let config = Config { theme: plan.theme, keys: plan.keys, editor, pkg, plugins };
            Loaded { config: Ok(config), icons: Some(icons) }
        }
    }
}

/// A file that cannot be read counts for nothing if the other says something.
pub proof fn law_an_unreadable_file_is_passed_over<T, V>(
    plan: Result<ConfigPlan<T, V>, ConfigLoadError>,
    defaults: IdMap<Mode, KeyTrie>,
    file: ConfigRaw<T, V>,
    error: ConfigLoadError,
)
    requires
        !(error is BadConfig),
    ensures
        planned(plan, defaults, Ok(file), Err(error)) <==> planned(
            plan,
            defaults,
            Err(error),
            Ok(file),
        ),
        planned(plan, defaults, Ok(file), Err(error)) ==> (plan matches Ok(plan)
            && one_planned(plan, defaults, file)),
{
}

/// A file that says what cannot be said is never passed over.
pub proof fn law_bad_files_are_told<T, V>(
    plan: Result<ConfigPlan<T, V>, ConfigLoadError>,
    defaults: IdMap<Mode, KeyTrie>,
    global: Result<ConfigRaw<T, V>, ConfigLoadError>,
    local: Result<ConfigRaw<T, V>, ConfigLoadError>,
)
    requires
        planned(plan, defaults, global, local),
        (global matches Err(error) && error is BadConfig) || (local matches Err(error)
            && error is BadConfig),
    ensures
        plan matches Err(error) && error is BadConfig,
{
}

/// Of two files with a section both count, the one of the workspace over the other; of one with
/// it that one, and of none the defaults.
pub proof fn law_sections_of_both_files_count<V>(global: V, local: V)
    ensures
        section_of(Some(global), Some(local)) == (Section::Merged { global, local }),
        section_of(Some(global), None) == Section::Value(global),
        section_of(None, Some(local)) == Section::Value(local),
        section_of::<V>(None, None) is Default,
{
}

/// With both files the theme of the workspace wins, and every section is put together from those
/// of both under its own name.
pub proof fn law_the_workspace_wins<T, V>(
    plan: Result<ConfigPlan<T, V>, ConfigLoadError>,
    defaults: IdMap<Mode, KeyTrie>,
    global: ConfigRaw<T, V>,
    local: ConfigRaw<T, V>,
)
    requires
        planned(plan, defaults, Ok(global), Ok(local)),
    ensures
        plan matches Ok(plan) && {
            &&& plan.merged
            &&& local.theme is Some ==> plan.theme == local.theme
            &&& local.theme is None ==> plan.theme == global.theme
            &&& plan.editor == section_of(global.editor, local.editor)
            &&& plan.pkg == section_of(global.pkg, local.pkg)
            &&& plan.plugins == section_of(global.plugins, local.plugins)
            &&& plan.icons == section_of(global.icons, local.icons)
            &&& global.keys is None && local.keys is None ==> plan.keys == defaults
            &&& plan.keys@.dom() == defaults@.dom()
        },
{
}

/// A configuration comes of a plan exactly if every part of it could be read and the plugins are
/// in order; the first part that is not is told.
pub proof fn law_a_configuration_needs_all_its_parts<T, V, E, K, P, I>(
    plan: ConfigPlan<T, V>,
    c: Converted<E, K, P, I>,
)
    ensures
        load_error(plan, c) is None <==> c.editor is Ok && c.pkg is Ok && c.plugins is Ok
            && c.plugins_valid is Ok && c.icons is Ok,
        load_error(plan, c) matches Some(error) ==> {
            ||| error matches ConfigLoadError::Plugin(reason) && c.plugins_valid == Err::<(), String>(
                reason,
            ) && c.plugins is Ok
            ||| error matches ConfigLoadError::BadConfig(reason) && (c.editor == Err::<E, String>(
                reason,
            ) || c.pkg == Err::<Option<K>, String>(reason) || c.plugins == Err::<P, String>(reason)
                || c.icons == Err::<I, String>(reason))
        },
        c.editor is Err && plan.merged ==> load_error(plan, c) == Some(
            ConfigLoadError::BadConfig(c.editor->Err_0),
        ),
        c.icons is Err && !plan.merged ==> load_error(plan, c) == Some(
            ConfigLoadError::BadConfig(c.icons->Err_0),
        ),
{
}

/// The bindings have nothing where the keys lead.
pub open spec fn says_nothing(bindings: KeyTrie, keys: Seq<KeyEvent>) -> bool {
    match bindings {
        KeyTrie::Node(node) => trie::silent(*node, keys),
        _ => false,
    }
}

/// What the file of the workspace binds in a mode runs, whatever the other file and the defaults
/// say; what only the other file binds runs where the workspace says nothing.
pub proof fn law_keys_of_the_workspace_win<T, V>(
    plan: ConfigPlan<T, V>,
    defaults: IdMap<Mode, KeyTrie>,
    global: ConfigRaw<T, V>,
    local: ConfigRaw<T, V>,
    mode: Mode,
    keys: Seq<KeyEvent>,
)
    requires
        planned(Ok(plan), defaults, Ok(global), Ok(local)),
        keys_wf(defaults),
        defaults@.dom().contains(mode),
        local.keys matches Some(own) && keys_wf(own) && own@.dom().contains(mode),
        global.keys matches Some(own) && keys_wf(own) && own@.dom().contains(mode),
    ensures
        trie::is_leaf(trie::found(local.keys->0@[mode], keys)) ==> trie::found(
            plan.keys@[mode],
            keys,
        ) == trie::found(local.keys->0@[mode], keys),
        says_nothing(local.keys->0@[mode], keys) && trie::is_leaf(
            trie::found(global.keys->0@[mode], keys),
        ) ==> trie::found(plan.keys@[mode], keys) == trie::found(global.keys->0@[mode], keys),
        says_nothing(local.keys->0@[mode], keys) && says_nothing(
            global.keys->0@[mode],
            keys,
        ) ==> trie::found(plan.keys@[mode], keys) == trie::found(defaults@[mode], keys),
{
    let middle = choose|middle: IdMap<Mode, KeyTrie>| #[trigger]
        keys_merged(middle, defaults, global.keys) && keys_merged(plan.keys, middle, local.keys);
    let (own, other) = (local.keys->0, global.keys->0);
    assert(middle@.dom().contains(mode));
    assert(trie::trie_is_merge(middle@[mode], defaults@[mode], other@[mode]));
    assert(trie::trie_is_merge(plan.keys@[mode], middle@[mode], own@[mode]));
    let (last, mid, first) = (
        plan.keys@[mode]->Node_0,
        middle@[mode]->Node_0,
        defaults@[mode]->Node_0,
    );
    let (l, g) = (own@[mode]->Node_0, other@[mode]->Node_0);
    if trie::is_leaf(trie::found(own@[mode], keys)) {
        trie::law_merge_finds_the_new_leaves(last, mid, l, keys);
    }
    if says_nothing(own@[mode], keys) {
        trie::law_merge_keeps_what_it_does_not_mention(last, mid, l, keys);
        if trie::is_leaf(trie::found(other@[mode], keys)) {
            trie::law_merge_finds_the_new_leaves(mid, first, g, keys);
        }
        if says_nothing(other@[mode], keys) {
            trie::law_merge_keeps_what_it_does_not_mention(mid, first, g, keys);
        }
    }
}

/// Any part that is wrong is told, and nothing is told where all are right; icons are in use only
/// if they can be read, and in a joined configuration only if nothing else is wrong.
pub proof fn law_wrong_parts_are_told<T, V, E, K, P, I>(
    plan: ConfigPlan<T, V>,
    c: Converted<E, K, P, I>,
)
    ensures
        one_error(c) is None <==> c.icons is Ok && c.plugins is Ok && c.plugins_valid is Ok
            && c.editor is Ok && c.pkg is Ok,
        both_error(c) is None <==> one_error(c) is None,
        loaded_icons(plan, c) is Some ==> c.icons is Ok && c.icons->Ok_0 == loaded_icons(plan, c)->0,
        c.icons is Ok && !plan.merged ==> loaded_icons(plan, c) is Some,
        plan.merged ==> (loaded_icons(plan, c) is Some <==> both_error(c) is None),
        c.icons is Ok && c.plugins is Ok && c.plugins_valid is Err ==> one_error(c) == Some(
            ConfigLoadError::Plugin(c.plugins_valid->Err_0),
        ),
        c.editor is Err ==> both_error(c) == Some(ConfigLoadError::BadConfig(c.editor->Err_0)),
        c.icons is Err ==> one_error(c) == Some(ConfigLoadError::BadConfig(c.icons->Err_0)),
{
}

/// Where one file is all there is, what it says counts.
pub proof fn law_a_single_file_counts<T, V>(
    plan: ConfigPlan<T, V>,
    defaults: IdMap<Mode, KeyTrie>,
    file: ConfigRaw<T, V>,
)
    requires
        one_planned(plan, defaults, file),
    ensures
        !plan.merged,
        plan.theme == file.theme,
        file.keys is None ==> plan.keys == defaults,
        plan.editor == section_of(file.editor, None),
        plan.pkg == section_of(file.pkg, None),
        plan.plugins == section_of(file.plugins, None),
        plan.icons == section_of(file.icons, None),
{
}

} // verus!
