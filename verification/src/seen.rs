//! What the contracts speak of is what the values hold: every field is seen as it
//! is, and every list item by item.

use vstd::prelude::*;

use crate::app;
use crate::config;
use crate::importer;
use crate::library;
use crate::manifest;
use crate::online::easyeda;
use crate::online::footprint;
use crate::online;
use crate::online::svgpath;
use crate::online::symbol;
use crate::picker;
use crate::scan;
use crate::sexpr;
use crate::symlib;
use crate::text;
use crate::ui;

verus! {

/// The progress of an import is seen as what its fields hold.
pub proof fn lemma_import_state(x: app::ImportState)
    ensures
        x@.name == x.name@,
        x@.part == x.part as int,
        x@.whole == x.whole as int,
{
}

/// A run is seen as what its fields hold.
pub proof fn lemma_run(x: app::Run, i: int)
    ensures
        x@.jobs.len() == x.jobs@.len(),
        0 <= i < x.jobs@.len() ==> x@.jobs[i] == x.jobs@[i]@,
        x@.total == x.total as int,
        x@.done == x.done as int,
        x@.imported == x.imported as int,
        x@.skipped == x.skipped as int,
        x@.failures.len() == x.failures@.len(),
        0 <= i < x.failures@.len() ==> x@.failures[i] == x.failures@[i]@,
        x@.overwrite_all == x.overwrite_all,
{
}

/// The Settings screen is seen as what its fields hold.
pub proof fn lemma_settings(x: app::Settings)
    ensures
        x@.cursor == x.cursor as int,
        x.editing matches Some(v) ==> x@.editing == Some(v@),
        x.editing is None ==> x@.editing is None,
        x@.draft == x.draft@,
        x@.dirty == x.dirty,
        x@.note == x.note@,
{
}

/// A name being typed is seen as what its fields hold.
pub proof fn lemma_naming(x: app::Naming)
    ensures
        x@.buffer == x.buffer@,
        x.target matches Some(v) ==> x@.target == Some(v as int),
        x.target is None ==> x@.target is None,
{
}

/// The Projects screen is seen as what its fields hold.
pub proof fn lemma_projects(x: app::Projects)
    ensures
        x@.cursor == x.cursor as int,
        x.naming matches Some(v) ==> x@.naming == Some(v@),
        x.naming is None ==> x@.naming is None,
        x@.message == x.message@,
{
}

/// The question about missing locations is seen as what its fields hold.
pub proof fn lemma_validate(x: app::Validate)
    ensures
        x@.missing == x.missing@,
        x@.index == x.index as int,
{
}

/// The search screen is seen as what its fields hold.
pub proof fn lemma_search(x: app::Search, i: int)
    ensures
        x@.query == x.query@,
        x@.editing == x.editing,
        x@.results.len() == x.results@.len(),
        0 <= i < x.results@.len() ==> x@.results[i] == x.results@[i]@,
        x@.cursor == x.cursor as int,
        x@.searching == x.searching,
        x@.message == x.message@,
{
}

/// What a scan found is seen as what its fields hold.
pub proof fn lemma_found(x: app::Found, i: int)
    ensures
        x@.entries.len() == x.zips.entries@.len(),
        0 <= i < x.zips.entries@.len() ==> x@.entries[i] == x.zips.entries@[i]@,
        x@.errors.len() == x.zips.errors@.len(),
        0 <= i < x.zips.errors@.len() ==> x@.errors[i] == x.zips.errors@[i]@,
        x@.recorded.len() == x.recorded@.len(),
        0 <= i < x.recorded@.len() ==> x@.recorded[i] == x.recorded@[i]@,
        x@.present.len() == x.present@.len(),
        0 <= i < x.present@.len() ==> x@.present[i] == x.present@[i]@,
        x@.at == x.at@,
{
}

/// The state of the application is seen as what its fields hold.
pub proof fn lemma_app(x: app::App, i: int)
    ensures
        x@.config == x.config@,
        x@.stored == x.stored@,
        x@.config_path == x.config_path@,
        x@.screen == x.screen,
        x@.zips.len() == x.zips@.len(),
        0 <= i < x.zips@.len() ==> x@.zips[i] == x.zips@[i]@,
        x.list matches Some(v) ==> x@.list == Some(v as int),
        x.list is None ==> x@.list is None,
        x.last_scan matches Some(v) ==> x@.last_scan == Some(v@),
        x.last_scan is None ==> x@.last_scan is None,
        x@.fs_errors.len() == x.fs_errors@.len(),
        0 <= i < x.fs_errors@.len() ==> x@.fs_errors[i] == x.fs_errors@[i]@,
        x@.library.len() == x.library@.len(),
        0 <= i < x.library@.len() ==> x@.library[i] == x.library@[i]@,
        x.library_list matches Some(v) ==> x@.library_list == Some(v as int),
        x.library_list is None ==> x@.library_list is None,
        x@.totals.parts == x.totals.parts,
        x@.totals.symbols == x.totals.symbols,
        x@.totals.footprints == x.totals.footprints,
        x@.totals.models == x.totals.models,
        x@.focus == x.focus,
        x@.filter == x.filter@,
        x@.filtering == x.filtering,
        x@.queue_view.len() == x.queue_view@.len(),
        0 <= i < x.queue_view@.len() ==> x@.queue_view[i] == (x.queue_view@[i] as int),
        x@.library_view.len() == x.library_view@.len(),
        0 <= i < x.library_view@.len() ==> x@.library_view[i] == (x.library_view@[i] as int),
        x@.status == x.status@,
        x.import matches Some(v) ==> x@.import == Some(v@),
        x.import is None ==> x@.import is None,
        x.settings matches Some(v) ==> x@.settings == Some(v@),
        x.settings is None ==> x@.settings is None,
        x.picker matches Some(v) ==> x@.picker == Some(v@),
        x.picker is None ==> x@.picker is None,
        x.validate matches Some(v) ==> x@.validate == Some(v@),
        x.validate is None ==> x@.validate is None,
        x.search matches Some(v) ==> x@.search == Some(v@),
        x.search is None ==> x@.search is None,
        x.projects matches Some(v) ==> x@.projects == Some(v@),
        x.projects is None ==> x@.projects is None,
        x.run matches Some(v) ==> x@.run == Some(v@),
        x.run is None ==> x@.run is None,
        x.pending matches Some(v) ==> x@.pending == Some(v@),
        x.pending is None ==> x@.pending is None,
        x@.behind == x.behind,
        x@.cwd == x.cwd@,
        x@.exe == x.exe@,
        x@.home == x.home@,
        x@.diag_scroll == x.diag_scroll,
        x@.diag_lines == x.diag_lines,
        x@.diag_view == x.diag_view,
        x@.pending_rescan == x.pending_rescan,
        x@.should_quit == x.should_quit,
        x@.todo.len() == x.todo@.len(),
        0 <= i < x.todo@.len() ==> x@.todo[i] == x.todo@[i]@,
        x.waiting matches Some(v) ==> x@.waiting == Some(v@),
        x.waiting is None ==> x@.waiting is None,
{
}

/// A saved project is seen as what its fields hold.
pub proof fn lemma_project(x: config::Project)
    ensures
        x@.name == x.name@,
        x@.library_root == x.library_root@,
        x.download_dir matches Some(v) ==> x@.download_dir == Some(v@),
        x.download_dir is None ==> x@.download_dir is None,
{
}

/// A configuration is seen as what its fields hold.
pub proof fn lemma_config(x: config::Config, i: int)
    ensures
        x@.library_root == x.library_root@,
        x@.download_dir == x.download_dir@,
        x@.symbol_dir == x.symbol_dir@,
        x@.footprint_dir == x.footprint_dir@,
        x@.model_dir == x.model_dir@,
        x@.temp_dir == x.temp_dir@,
        x@.archive_dir == x.archive_dir@,
        x.merged_symbol_lib matches Some(v) ==> x@.merged_symbol_lib == Some(v@),
        x.merged_symbol_lib is None ==> x@.merged_symbol_lib is None,
        x@.manifest_path == x.manifest_path@,
        x@.per_part_footprint_dirs == x.per_part_footprint_dirs,
        x@.backup_before_overwrite == x.backup_before_overwrite,
        x@.delete_zip_after_import == x.delete_zip_after_import,
        x@.projects.len() == x.projects@.len(),
        0 <= i < x.projects@.len() ==> x@.projects[i] == x.projects@[i]@,
{
}

/// The summary of an import is seen as what its fields hold.
pub proof fn lemma_import_summary(x: importer::ImportSummary, i: int)
    ensures
        x@.part == x.part@,
        x@.symbols.len() == x.symbols@.len(),
        0 <= i < x.symbols@.len() ==> x@.symbols[i] == x.symbols@[i]@,
        x@.footprints.len() == x.footprints@.len(),
        0 <= i < x.footprints@.len() ==> x@.footprints[i] == x.footprints@[i]@,
        x@.models.len() == x.models@.len(),
        0 <= i < x.models@.len() ==> x@.models[i] == x.models@[i]@,
        x@.merged_symbols.len() == x.merged_symbols@.len(),
        0 <= i < x.merged_symbols@.len() ==> x@.merged_symbols[i] == x.merged_symbols@[i]@,
        x.archived_to matches Some(v) ==> x@.archived_to == Some(v@),
        x.archived_to is None ==> x@.archived_to is None,
        x@.deleted_zip == x.deleted_zip,
{
}

/// A staged file is seen as what its fields hold.
pub proof fn lemma_staged(x: importer::Staged)
    ensures
        x@.kind == x.kind,
        x@.name == x.name@,
        x@.path == x.path@,
{
}

/// An unpacked import is seen as what its fields hold.
pub proof fn lemma_pending(x: importer::Pending, i: int)
    ensures
        x@.part == x.part@,
        x@.source == x.source@,
        x@.staged.len() == x.staged@.len(),
        0 <= i < x.staged@.len() ==> x@.staged[i] == x.staged@[i]@,
        x@.staging == x.staging@,
        x@.conflicts.len() == x.conflicts@.len(),
        0 <= i < x.conflicts@.len() ==> x@.conflicts[i] == x.conflicts@[i]@,
        x.zip matches Some(v) ==> x@.zip == Some(v@),
        x.zip is None ==> x@.zip is None,
{
}

/// A file taken out of an archive is seen as what its fields hold.
pub proof fn lemma_extracted(x: importer::Extracted)
    ensures
        x@.item == x.item@,
        x@.contents == x.contents@,
{
}

/// An archive being read is seen as what its fields hold.
pub proof fn lemma_unpacking(x: importer::Unpacking, i: int)
    ensures
        x@.part == x.part@,
        x@.files.len() == x.files@.len(),
        0 <= i < x.files@.len() ==> x@.files[i] == x.files@[i]@,
{
}

/// An import on its way is seen as what its fields hold.
pub proof fn lemma_install(x: importer::Install, i: int)
    ensures
        x@.cfg == x.cfg@,
        x@.pending == x.pending@,
        x@.agenda.len() == x.agenda@.len(),
        0 <= i < x.agenda@.len() ==> x@.agenda[i] == x.agenda@[i]@,
        x@.symbol_names.len() == x.symbol_names@.len(),
        0 <= i < x.symbol_names@.len() ==> x@.symbol_names[i] == x.symbol_names@[i]@,
        x@.merged_symbols.len() == x.merged_symbols@.len(),
        0 <= i < x.merged_symbols@.len() ==> x@.merged_symbols[i] == x.merged_symbols@[i]@,
{
}

/// A file of a listing is seen as what its fields hold.
pub proof fn lemma_listed(x: library::Listed)
    ensures
        x@.name == x.name@,
        x@.is_file == x.is_file,
        x@.modified == x.modified@,
        x@.text == x.text@,
{
}

/// A folder of a listing is seen as what its fields hold.
pub proof fn lemma_folder(x: library::Folder, i: int)
    ensures
        x@.name == x.name@,
        x@.files.len() == x.files@.len(),
        0 <= i < x.files@.len() ==> x@.files[i] == x.files@[i]@,
{
}

/// The layout of a library is seen as what its fields hold.
pub proof fn lemma_layout(x: manifest::Layout)
    ensures
        x@.symbols == x.symbols@,
        x@.footprints == x.footprints@,
        x@.models == x.models@,
        x.merged_symbol_lib matches Some(v) ==> x@.merged_symbol_lib == Some(v@),
        x.merged_symbol_lib is None ==> x@.merged_symbol_lib is None,
        x@.archive == x.archive@,
        x@.per_part_footprint_dirs == x.per_part_footprint_dirs,
{
}

/// A part of a library is seen as what its fields hold.
pub proof fn lemma_part(x: manifest::Part, i: int)
    ensures
        x@.name == x.name@,
        x@.source == x.source@,
        x@.imported_at == x.imported_at@,
        x.symbol_file matches Some(v) ==> x@.symbol_file == Some(v@),
        x.symbol_file is None ==> x@.symbol_file is None,
        x@.symbol_names.len() == x.symbol_names@.len(),
        0 <= i < x.symbol_names@.len() ==> x@.symbol_names[i] == x.symbol_names@[i]@,
        x@.footprints.len() == x.footprints@.len(),
        0 <= i < x.footprints@.len() ==> x@.footprints[i] == x.footprints@[i]@,
        x@.models.len() == x.models@.len(),
        0 <= i < x.models@.len() ==> x@.models[i] == x.models@[i]@,
{
}

/// A manifest is seen as what its fields hold.
pub proof fn lemma_manifest(x: manifest::Manifest, i: int)
    ensures
        x@.generated == x.generated@,
        x@.library_root == x.library_root@,
        x@.layout == x.layout@,
        x@.parts.len() == x.parts@.len(),
        0 <= i < x.parts@.len() ==> x@.parts[i] == x.parts@[i]@,
{
}

/// A search result is seen as what its fields hold.
pub proof fn lemma_hit(x: easyeda::Hit)
    ensures
        x@.id == x.id@,
        x@.mpn == x.mpn@,
        x@.manufacturer == x.manufacturer@,
        x@.package == x.package@,
        x@.category == x.category@,
        x@.stock == x.stock,
{
}

/// A component is seen as what its fields hold.
pub proof fn lemma_component(x: easyeda::Component, i: int)
    ensures
        x@.lcsc == x.lcsc@,
        x@.title == x.title@,
        x@.manufacturer == x.manufacturer@,
        x@.datasheet == x.datasheet@,
        x@.prefix == x.prefix@,
        x@.symbol_origin.0 == x.symbol_origin.0@,
        x@.symbol_origin.1 == x.symbol_origin.1@,
        x@.symbol_shapes.len() == x.symbol_shapes@.len(),
        0 <= i < x.symbol_shapes@.len() ==> x@.symbol_shapes[i] == x.symbol_shapes@[i]@,
        x@.package_name == x.package_name@,
        x@.package_origin.0 == x.package_origin.0@,
        x@.package_origin.1 == x.package_origin.1@,
        x@.package_shapes.len() == x.package_shapes@.len(),
        0 <= i < x.package_shapes@.len() ==> x@.package_shapes[i] == x.package_shapes@[i]@,
{
}

/// The label of a pad is seen as what its fields hold.
pub proof fn lemma_pad_label(x: footprint::PadLabel)
    ensures
        x@.outline == x.outline,
        x@.layer == x.layer@,
        x@.number == x.number@,
        x@.plated == x.plated,
{
}

/// A 3D model is seen as what its fields hold.
pub proof fn lemma_model3d(x: footprint::Model3d)
    ensures
        x@.uuid == x.uuid@,
        x@.origin.0 == x.origin.0@,
        x@.origin.1 == x.origin.1@,
        x@.rotation.0 == x.rotation.0@,
        x@.rotation.1 == x.rotation.1@,
        x@.rotation.2 == x.rotation.2@,
{
}

/// The placement of a model is seen as what its fields hold.
pub proof fn lemma_placement(x: footprint::Placement)
    ensures
        x@.offset.0 == x.offset.0@,
        x@.offset.1 == x.offset.1@,
        x@.rotation.0 == x.rotation.0@,
        x@.rotation.1 == x.rotation.1@,
        x@.rotation.2 == x.rotation.2@,
{
}

/// A downloaded part is seen as what its fields hold.
pub proof fn lemma_remote_part(x: online::RemotePart)
    ensures
        x@.name == x.name@,
        x@.lcsc == x.lcsc@,
        x@.description == x.description@,
        x@.symbol.0 == x.symbol.0@,
        x@.symbol.1 == x.symbol.1@,
        x.footprint matches Some(v) ==> x@.footprint == Some((v.0@, v.1@)),
        x.footprint is None ==> x@.footprint is None,
        x.model matches Some(v) ==> x@.model == Some((v.0@, v.1@)),
        x.model is None ==> x@.model is None,
{
}

/// The names of the files of a part is seen as what its fields hold.
pub proof fn lemma_plan(x: online::Plan)
    ensures
        x@.name == x.name@,
        x.model matches Some(v) ==> x@.model == Some(v@),
        x.model is None ==> x@.model is None,
        x.model_reference matches Some(v) ==> x@.model_reference == Some(v@),
        x.model_reference is None ==> x@.model_reference is None,
        x@.footprint_name == x.footprint_name@,
        x.footprint_ref matches Some(v) ==> x@.footprint_ref == Some(v@),
        x.footprint_ref is None ==> x@.footprint_ref is None,
{
}

/// The label of a pin is seen as what its fields hold.
pub proof fn lemma_pin_label(x: symbol::PinLabel)
    ensures
        x@.code == x.code@,
        x@.name == x.name@,
        x@.number == x.number@,
        x@.inverted == x.inverted,
        x@.clock == x.clock,
        x@.hidden == x.hidden,
{
}

/// A style is seen as what its fields hold.
pub proof fn lemma_style(x: symbol::Style)
    ensures
        x@.stroke == x.stroke@,
        x@.fill == x.fill@,
{
}

/// An entry of a folder is seen as what its fields hold.
pub proof fn lemma_seen(x: picker::Seen)
    ensures
        x@.name == x.name@,
        x@.is_dir == x.is_dir,
{
}

/// The folder browser is seen as what its fields hold.
pub proof fn lemma_picker(x: picker::Picker, i: int)
    ensures
        x@.cwd == x.cwd@,
        x@.entries.len() == x.entries@.len(),
        0 <= i < x.entries@.len() ==> x@.entries[i] == x.entries@[i]@,
        x@.selected == x.selected as int,
        x@.target == x.target,
        x.error matches Some(v) ==> x@.error == Some(v@),
        x.error is None ==> x@.error is None,
{
}

/// An archive of the queue is seen as what its fields hold.
pub proof fn lemma_zip_entry(x: scan::ZipEntry)
    ensures
        x@.path == x.path@,
        x@.display == x.display@,
        x@.size == x.size,
{
}

/// A symbol is seen as what its fields hold.
pub proof fn lemma_symbol_block(x: symlib::SymbolBlock)
    ensures
        x@.name == x.name@,
        x@.text == x.text@,
{
}

/// A symbol library is seen as what its fields hold.
pub proof fn lemma_symbol_lib(x: symlib::SymbolLib, i: int)
    ensures
        x@.header == x.header@,
        x@.symbols.len() == x.symbols@.len(),
        0 <= i < x.symbols@.len() ==> x@.symbols[i] == x.symbols@[i]@,
{
}

/// A piece of text is seen as what its fields hold.
pub proof fn lemma_span(x: ui::Span)
    ensures
        x@.text == x.text@,
        x@.look == x.look,
{
}

/// A box is seen as what its fields hold.
pub proof fn lemma_panel(x: ui::Panel)
    ensures
        x@.title == x.title@,
        x@.lines == x.lines@,
{
}


/// A job is seen as what it is.
pub proof fn lemma_app_job(it: app::Job)
    ensures
        it matches app::Job::Zip(entry) ==> it@ == (app::JobView::Zip(entry@)),
        it matches app::Job::Web(hit) ==> it@ == (app::JobView::Web(hit@)),
{
}

/// What is asked for outside is seen as what it is.
pub proof fn lemma_app_effect(it: app::Effect)
    ensures
        it matches app::Effect::Scan { cfg } ==> it@ == (app::EffectView::Scan { cfg: cfg@ }),
        it matches app::Effect::Watch { dir } ==> it@ == (app::EffectView::Watch { dir: dir@ }),
        it matches app::Effect::Check { root, download } ==> it@ == (app::EffectView::Check {
            root: root@,
            download: download@,
        }),
        it matches app::Effect::Save { cfg, path } ==> it@ == (app::EffectView::Save {
            cfg: cfg@,
            path: path@,
        }),
        it matches app::Effect::Create { paths } ==> it@ == (app::EffectView::Create {
            paths: text::views(paths@),
        }),
        it matches app::Effect::Browse { start } ==> it@ == (app::EffectView::Browse {
            start: start@,
        }),
        it matches app::Effect::List { path } ==> it@ == (app::EffectView::List {
            path: path@,
        }),
        it matches app::Effect::Prepare { job, cfg, index, total }
            ==> it@ == (app::EffectView::Prepare {
            job: job@,
            cfg: cfg@,
            index: index as int,
            total: total as int,
        }),
        it matches app::Effect::Finish { pending, cfg } ==> it@ == (app::EffectView::Finish {
            pending: pending@,
            cfg: cfg@,
        }),
        it matches app::Effect::Discard { pending } ==> it@ == (app::EffectView::Discard {
            pending: pending@,
        }),
        it matches app::Effect::Find { query, limit } ==> it@ == (app::EffectView::Find {
            query: query@,
            limit: limit as int,
        }),
{
}

/// An event is seen as what it is.
pub proof fn lemma_app_event(it: app::Event)
    ensures
        it matches app::Event::Key(key) ==> it@ == (app::EventView::Key(key)),
        it matches app::Event::FsChanged { now } ==> it@ == (app::EventView::FsChanged { now }),
        it matches app::Event::ImportProgress { index, total, part, whole, name }
            ==> it@ == (app::EventView::ImportProgress {
            index: index as int,
            total: total as int,
            part: part as int,
            whole: whole as int,
            name: name@,
        }),
        it matches app::Event::ImportDone(r)
            ==> it@ == (app::EventView::ImportDone(app::outcome_view(r))),
        it matches app::Event::SearchDone(r)
            ==> it@ == (app::EventView::SearchDone(app::hits_view(r))),
        it matches app::Event::Tick { now } ==> it@ == (app::EventView::Tick { now }),
{
}

/// A shape of a package is seen as what it is.
pub proof fn lemma_footprint_shape(it: footprint::Shape)
    ensures
        it matches footprint::Shape::Pad { x, y, width, height, hole_radius, hole_length, rotation, label }
            ==> it@ == (footprint::ShapeView::Pad {
            x: x@,
            y: y@,
            width: width@,
            height: height@,
            hole_radius: hole_radius@,
            hole_length: hole_length@,
            rotation: rotation@,
            label: label@,
        }),
        it matches footprint::Shape::Track { stroke, layer, points }
            ==> it@ == (footprint::ShapeView::Track {
            stroke: stroke@,
            layer: layer@,
            points: svgpath::pair_views(points@),
        }),
        it matches footprint::Shape::Circle { x, y, radius, stroke, layer }
            ==> it@ == (footprint::ShapeView::Circle {
            x: x@,
            y: y@,
            radius: radius@,
            stroke: stroke@,
            layer: layer@,
        }),
        it matches footprint::Shape::Arc { stroke, layer, steps }
            ==> it@ == (footprint::ShapeView::Arc {
            stroke: stroke@,
            layer: layer@,
            steps: svgpath::step_views(steps@),
        }),
        it matches footprint::Shape::Rect { x, y, width, height, layer }
            ==> it@ == (footprint::ShapeView::Rect {
            x: x@,
            y: y@,
            width: width@,
            height: height@,
            layer: layer@,
        }),
        it matches footprint::Shape::Region { layer, steps, cutout }
            ==> it@ == (footprint::ShapeView::Region {
            layer: layer@,
            steps: svgpath::step_views(steps@),
            cutout,
        }),
        it matches footprint::Shape::Hole { x, y, radius } ==> it@ == (footprint::ShapeView::Hole {
            x: x@,
            y: y@,
            radius: radius@,
        }),
        it matches footprint::Shape::Via { x, y, diameter, hole_radius }
            ==> it@ == (footprint::ShapeView::Via {
            x: x@,
            y: y@,
            diameter: diameter@,
            hole_radius: hole_radius@,
        }),
        it matches footprint::Shape::Other ==> it@ == (footprint::ShapeView::Other),
{
}

/// A hole is seen as what it is.
pub proof fn lemma_footprint_drill(it: footprint::Drill)
    ensures
        it matches footprint::Drill::Surface ==> it@ == (footprint::DrillView::Surface),
        it matches footprint::Drill::Round { diameter } ==> it@ == (footprint::DrillView::Round {
            diameter: diameter@,
        }),
        it matches footprint::Drill::Slot { length, diameter }
            ==> it@ == (footprint::DrillView::Slot {
            length: length@,
            diameter: diameter@,
        }),
{
}

/// A measured shape of a package is seen as what it is.
pub proof fn lemma_footprint_drawn(it: footprint::Drawn)
    ensures
        it matches footprint::Drawn::Pad { at, angle, size, even, drill, label }
            ==> it@ == (footprint::DrawnView::Pad {
            at: symbol::pair(at),
            angle: text::opt_view(angle),
            size: symbol::pair(size),
            even,
            drill: drill@,
            label: label@,
        }),
        it matches footprint::Drawn::Track { points, width, layer }
            ==> it@ == (footprint::DrawnView::Track {
            points: sexpr::pair_views(points@),
            width: width@,
            layer: layer@,
        }),
        it matches footprint::Drawn::Circle { center, end, width, layer }
            ==> it@ == (footprint::DrawnView::Circle {
            center: symbol::pair(center),
            end: symbol::pair(end),
            width: width@,
            layer: layer@,
        }),
        it matches footprint::Drawn::Path { pieces, width, layer }
            ==> it@ == (footprint::DrawnView::Path {
            pieces: symbol::piece_views(pieces@),
            width: width@,
            layer: layer@,
        }),
        it matches footprint::Drawn::Rect { from, to, width, layer }
            ==> it@ == (footprint::DrawnView::Rect {
            from: symbol::pair(from),
            to: symbol::pair(to),
            width: width@,
            layer: layer@,
        }),
        it matches footprint::Drawn::Region { points, layer, cutout }
            ==> it@ == (footprint::DrawnView::Region {
            points: sexpr::pair_views(points@),
            layer: layer@,
            cutout,
        }),
        it matches footprint::Drawn::Hole { at, diameter } ==> it@ == (footprint::DrawnView::Hole {
            at: symbol::pair(at),
            diameter: diameter@,
        }),
        it matches footprint::Drawn::Via { at, outer, bore } ==> it@ == (footprint::DrawnView::Via {
            at: symbol::pair(at),
            outer: outer@,
            bore: bore@,
        }),
{
}

/// A shape of a schematic is seen as what it is.
pub proof fn lemma_symbol_shape(it: symbol::Shape)
    ensures
        it matches symbol::Shape::Pin { x, y, steps, label } ==> it@ == (symbol::ShapeView::Pin {
            x: x@,
            y: y@,
            steps: svgpath::step_views(steps@),
            label: label@,
        }),
        it matches symbol::Shape::Rectangle { x, y, width, height, style }
            ==> it@ == (symbol::ShapeView::Rectangle {
            x: x@,
            y: y@,
            width: width@,
            height: height@,
            style: style@,
        }),
        it matches symbol::Shape::Ellipse { x, y, rx, ry, style }
            ==> it@ == (symbol::ShapeView::Ellipse {
            x: x@,
            y: y@,
            rx: rx@,
            ry: ry@,
            style: style@,
        }),
        it matches symbol::Shape::Polyline { points, polygon, style }
            ==> it@ == (symbol::ShapeView::Polyline {
            points: svgpath::pair_views(points@),
            polygon,
            style: style@,
        }),
        it matches symbol::Shape::Path { steps, style } ==> it@ == (symbol::ShapeView::Path {
            steps: svgpath::step_views(steps@),
            style: style@,
        }),
        it matches symbol::Shape::Other ==> it@ == (symbol::ShapeView::Other),
{
}

/// A piece of a path is seen as what it is.
pub proof fn lemma_symbol_piece(it: symbol::Piece)
    ensures
        it matches symbol::Piece::Line { from, to, joined } ==> it@ == (symbol::PieceView::Line {
            from: symbol::pair(from),
            to: symbol::pair(to),
            joined,
        }),
        it matches symbol::Piece::Arc { from, mid, to } ==> it@ == (symbol::PieceView::Arc {
            from: symbol::pair(from),
            mid: symbol::pair(mid),
            to: symbol::pair(to),
        }),
{
}

/// A measured shape of a schematic is seen as what it is.
pub proof fn lemma_symbol_drawn(it: symbol::Drawn)
    ensures
        it matches symbol::Drawn::Rectangle { from, to, style }
            ==> it@ == (symbol::DrawnView::Rectangle {
            from: symbol::pair(from),
            to: symbol::pair(to),
            style: style@,
        }),
        it matches symbol::Drawn::Circle { at, radius, style }
            ==> it@ == (symbol::DrawnView::Circle {
            at: symbol::pair(at),
            radius: radius@,
            style: style@,
        }),
        it matches symbol::Drawn::Polyline { points, polygon, closed, style }
            ==> it@ == (symbol::DrawnView::Polyline {
            points: sexpr::pair_views(points@),
            polygon,
            closed,
            style: style@,
        }),
        it matches symbol::Drawn::Path { pieces, style } ==> it@ == (symbol::DrawnView::Path {
            pieces: symbol::piece_views(pieces@),
            style: style@,
        }),
        it matches symbol::Drawn::Pin { at, angle, length, label }
            ==> it@ == (symbol::DrawnView::Pin {
            at: symbol::pair(at),
            angle: angle@,
            length: length@,
            label: label@,
        }),
{
}

/// A step of a path is seen as what it is.
pub proof fn lemma_svgpath_step(it: svgpath::Step)
    ensures
        it matches svgpath::Step::Move { x, y, relative } ==> it@ == (svgpath::StepView::Move {
            x: x@,
            y: y@,
            relative,
        }),
        it matches svgpath::Step::Line { x, y, relative } ==> it@ == (svgpath::StepView::Line {
            x: x@,
            y: y@,
            relative,
        }),
        it matches svgpath::Step::Horizontal { x, relative }
            ==> it@ == (svgpath::StepView::Horizontal {
            x: x@,
            relative,
        }),
        it matches svgpath::Step::Vertical { y, relative } ==> it@ == (svgpath::StepView::Vertical {
            y: y@,
            relative,
        }),
        it matches svgpath::Step::Arc { rx, ry, rotation, large, sweep, x, y, relative }
            ==> it@ == (svgpath::StepView::Arc {
            rx: rx@,
            ry: ry@,
            rotation: rotation@,
            large: large@,
            sweep: sweep@,
            x: x@,
            y: y@,
            relative,
        }),
        it matches svgpath::Step::Close ==> it@ == (svgpath::StepView::Close),
{
}

/// What a walk through the folders meets is seen as what it is.
pub proof fn lemma_scan_met(it: scan::Met)
    ensures
        it matches scan::Met::File { path, size } ==> it@ == (scan::MetView::File {
            path: path@,
            size,
        }),
        it matches scan::Met::Other { path } ==> it@ == (scan::MetView::Other { path: path@ }),
        it matches scan::Met::Error { at, message } ==> it@ == (scan::MetView::Error {
            at: text::opt_view(at),
            message: message@,
        }),
{
}

/// What is done on disk is seen as what it is.
pub proof fn lemma_importer_action(it: importer::Action)
    ensures
        it matches importer::Action::MakeDir { path } ==> it@ == (importer::ActionView::MakeDir {
            path: path@,
        }),
        it matches importer::Action::ReadSymbol { path }
            ==> it@ == (importer::ActionView::ReadSymbol {
            path: path@,
        }),
        it matches importer::Action::ReadLibrary { path, source }
            ==> it@ == (importer::ActionView::ReadLibrary {
            path: path@,
            source: source@,
        }),
        it matches importer::Action::Backup { from, to } ==> it@ == (importer::ActionView::Backup {
            from: from@,
            to: to@,
        }),
        it matches importer::Action::WriteLibrary { path, text, names }
            ==> it@ == (importer::ActionView::WriteLibrary {
            path: path@,
            text: text@,
            names: text::views(names@),
        }),
        it matches importer::Action::Rename { from, to } ==> it@ == (importer::ActionView::Rename {
            from: from@,
            to: to@,
        }),
        it matches importer::Action::Copy { from, to } ==> it@ == (importer::ActionView::Copy {
            from: from@,
            to: to@,
        }),
        it matches importer::Action::Remove { path } ==> it@ == (importer::ActionView::Remove {
            path: path@,
        }),
        it matches importer::Action::RemoveTree { path }
            ==> it@ == (importer::ActionView::RemoveTree {
            path: path@,
        }),
        it matches importer::Action::Record ==> it@ == (importer::ActionView::Record),
{
}

} // verus!
