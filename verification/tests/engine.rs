use rust_engine::fs_binding::{read_dir_listing, DirEntryInfo, ListingItem};
use rust_engine::game_core::ScriptModule;
use rust_engine::gfx_helper::{
    find_memory_type, pick_surface_format, stage_texture_rows, texture_upload_layout, update_fits,
    FrameBuffer,
};
use rust_engine::graphics::{Extent2D, Graphics, Rect};
use rust_engine::js_filesystem::JSFileSystemModule;
use rust_engine::material::Material;
use rust_engine::pool::Pool;
use rust_engine::render_queue::{QueueNode, QueueType, RenderQueue};
use rust_engine::shader::{decode_spirv, encode_spirv, spirv_cache_path};
use rust_engine::shader_store::ShaderStore;
use rust_engine::win::{handle_event, ControlFlow, Event, WinAction, WindowEvent};

fn node(shader_id: u128, material_id: u128, queue_type: QueueType, mesh: &'static str) -> QueueNode<&'static str, &'static str, &'static str> {
    QueueNode {
        shader_id,
        shader: if shader_id == 1 { "shader-1" } else { "shader-2" },
        material_id,
        material: if material_id == 10 {
            "material-10"
        } else if material_id == 20 {
            "material-20"
        } else {
            "material-30"
        },
        queue_type,
        mesh,
    }
}

fn uuid_bits_ok(id: u128) -> bool {
    (id >> 76) & 0xf == 4 && (id >> 62) & 3 == 2
}

#[test]
fn pool_hands_out_fresh_values() {
    let pool = Pool::create(|| vec![7u8, 8], |_v: Vec<u8>| {});
    assert_eq!(pool.use_value(), vec![7u8, 8]);
    assert_eq!(pool.use_value(), vec![7u8, 8]);
}

#[test]
fn queue_keeps_each_shader_and_material_once() {
    let mut q = RenderQueue::new();
    q.push_node(node(1, 10, QueueType::Geometry, "a"));
    q.push_node(node(1, 20, QueueType::Geometry, "b"));
    q.push_node(node(1, 10, QueueType::Geometry, "c"));
    q.push_node(node(2, 30, QueueType::Geometry, "d"));
    assert_eq!(q.shaders(), &vec!["shader-1", "shader-2"]);
    assert_eq!(q.meterials(), &vec!["material-10", "material-20", "material-30"]);
    assert_eq!(q.meshes(), &vec!["a", "b", "c", "d"]);
    assert_eq!(q.get_mesh_material_by_idx(0), 10);
    assert_eq!(q.get_mesh_material_by_idx(1), 20);
    assert_eq!(q.get_mesh_material_by_idx(2), 10);
    assert_eq!(q.get_mesh_material_by_idx(3), 30);
}

#[test]
fn draw_order_groups_by_shader_then_material() {
    let mut q = RenderQueue::new();
    q.push_node(node(1, 10, QueueType::Geometry, "a"));
    q.push_node(node(2, 30, QueueType::Geometry, "b"));
    q.push_node(node(1, 20, QueueType::Geometry, "c"));
    q.push_node(node(1, 10, QueueType::Geometry, "d"));
    // shaders: [1, 2]; materials: [10 (shader 1), 30 (shader 2), 20 (shader 1)]
    assert_eq!(q.draw_order(), vec![(0, 0, 0), (0, 0, 3), (0, 2, 2), (1, 1, 1)]);
}

#[test]
fn draw_order_draws_each_mesh_once() {
    let mut q = RenderQueue::new();
    let meshes = ["m0", "m1", "m2", "m3", "m4", "m5"];
    let keys = [(2u128, 30u128), (1, 10), (2, 30), (1, 20), (1, 10), (2, 30)];
    for k in 0..6 {
        q.push_node(node(keys[k].0, keys[k].1, QueueType::Geometry, meshes[k]));
    }
    let plan = q.draw_order();
    assert_eq!(plan.len(), 6);
    for i in 0..6 {
        assert_eq!(plan.iter().filter(|step| step.2 == i).count(), 1);
    }
}

#[test]
fn cleared_queue_is_empty() {
    let mut q = RenderQueue::new();
    q.push_node(node(1, 10, QueueType::Geometry, "a"));
    q.clear();
    assert!(q.shaders().is_empty());
    assert!(q.meterials().is_empty());
    assert!(q.meshes().is_empty());
    assert!(q.draw_order().is_empty());
}

#[test]
fn empty_queue_draws_nothing() {
    let q: RenderQueue<u8, u8, u8> = RenderQueue::new();
    assert!(q.draw_order().is_empty());
}

#[test]
fn graphics_routes_nodes_by_queue_type() {
    let mut g = Graphics::new(Extent2D { width: 800, height: 600 }, 3);
    let plan = g.draw(vec![
        node(1, 10, QueueType::Geometry, "a"),
        node(2, 30, QueueType::Transparent, "b"),
        node(1, 20, QueueType::Geometry, "c"),
    ]);
    assert_eq!(g.geometry_queue().meshes(), &vec!["a", "c"]);
    assert_eq!(g.transparent_queue().meshes(), &vec!["b"]);
    assert_eq!(plan, vec![(0, 0, 0), (0, 1, 1)]);
    // the next frame starts from empty queues
    let plan = g.draw(vec![node(2, 30, QueueType::Geometry, "z")]);
    assert_eq!(g.geometry_queue().meshes(), &vec!["z"]);
    assert!(g.transparent_queue().meshes().is_empty());
    assert_eq!(plan, vec![(0, 0, 0)]);
}

#[test]
fn pick_nodes_appends_to_queues() {
    let mut g = Graphics::new(Extent2D { width: 10, height: 10 }, 1);
    g.pick_nodes_to_queue(vec![node(1, 10, QueueType::Geometry, "a")]);
    g.pick_nodes_to_queue(vec![node(1, 10, QueueType::Geometry, "b")]);
    assert_eq!(g.geometry_queue().meshes(), &vec!["a", "b"]);
    assert_eq!(g.geometry_queue().shaders(), &vec!["shader-1"]);
}

#[test]
fn viewport_follows_swapchain_extent() {
    let g: Graphics<u8, u8, u8> = Graphics::new(Extent2D { width: 800, height: 600 }, 2);
    assert_eq!(g.viewport(), Rect { x: 0, y: 0, w: 800, h: 600 });
    // sides are converted with `as i16`
    assert_eq!(
        Graphics::<u8, u8, u8>::create_viewport(Extent2D { width: 70000, height: 40000 }),
        Rect { x: 0, y: 0, w: 4464, h: -25536 },
    );
}

#[test]
fn recreate_swapchain_resets_ring_and_viewport() {
    let mut g: Graphics<u8, u8, u8> = Graphics::new(Extent2D { width: 800, height: 600 }, 2);
    assert_eq!(g.next_acq_pre_pair_index(), 0);
    assert_eq!(g.next_acq_pre_pair_index(), 1);
    g.recreate_swapchain(Extent2D { width: 1024, height: 768 }, 3);
    assert_eq!(g.viewport(), Rect { x: 0, y: 0, w: 1024, h: 768 });
    assert_eq!(g.next_acq_pre_pair_index(), 0);
    assert_eq!(g.next_acq_pre_pair_index(), 1);
    assert_eq!(g.next_acq_pre_pair_index(), 2);
    assert_eq!(g.next_acq_pre_pair_index(), 0);
}

#[test]
fn semaphore_ring_cycles() {
    let mut fb = FrameBuffer::new(3);
    assert_eq!(fb.slot_count(), 3);
    let got: Vec<usize> = (0..7).map(|_| fb.next_acq_pre_pair_index()).collect();
    assert_eq!(got, vec![0, 1, 2, 0, 1, 2, 0]);
}

#[test]
fn semaphore_ring_without_images_has_one_slot() {
    let mut fb = FrameBuffer::new(0);
    assert_eq!(fb.slot_count(), 1);
    assert_eq!(fb.next_acq_pre_pair_index(), 0);
    assert_eq!(fb.next_acq_pre_pair_index(), 0);
}

#[test]
fn memory_type_choice() {
    // DEVICE_LOCAL = 1, CPU_VISIBLE = 2, COHERENT = 4
    let props = vec![0x1u16, 0x6, 0x2, 0x7];
    assert_eq!(find_memory_type(0b1111, &props, 0x1), Some(0));
    assert_eq!(find_memory_type(0b1110, &props, 0x1), Some(3));
    assert_eq!(find_memory_type(0b1111, &props, 0x6), Some(1));
    assert_eq!(find_memory_type(0b1101, &props, 0x6), Some(3));
    assert_eq!(find_memory_type(0b0101, &props, 0x2), Some(2));
    assert_eq!(find_memory_type(0b0001, &props, 0x2), None);
    assert_eq!(find_memory_type(0, &props, 0), None);
    assert_eq!(find_memory_type(u64::MAX, &vec![], 0), None);
}

#[test]
fn memory_types_past_64_are_not_chosen() {
    let mut props = vec![0u16; 70];
    props[65] = 0x1;
    assert_eq!(find_memory_type(u64::MAX, &props, 0x1), None);
    props[63] = 0x1;
    assert_eq!(find_memory_type(u64::MAX, &props, 0x1), Some(63));
}

#[test]
fn texture_layout_is_four_bytes_per_texel() {
    assert_eq!(texture_upload_layout(3, 2), (12, 24));
    assert_eq!(texture_upload_layout(0, 5), (0, 0));
    assert_eq!(texture_upload_layout(256, 256), (1024, 262144));
}

#[test]
fn staging_copies_rows_at_the_pitch() {
    let pixels: Vec<u8> = (1..=8).collect(); // 1x2 image, 4 bytes per row
    assert_eq!(stage_texture_rows(&pixels, 1, 2, 4), pixels);
    assert_eq!(stage_texture_rows(&pixels, 1, 2, 6), vec![1, 2, 3, 4, 0, 0, 5, 6, 7, 8, 0, 0]);
    // only `height` rows are taken
    assert_eq!(stage_texture_rows(&pixels, 1, 1, 4), vec![1, 2, 3, 4]);
}

#[test]
fn surface_format_prefers_srgb() {
    assert_eq!(pick_surface_format(None, 99u32), 99);
    assert_eq!(pick_surface_format(Some(&vec![(1u32, false), (2, true), (3, true)]), 99), 2);
    assert_eq!(pick_surface_format(Some(&vec![(1u32, false), (2, false)]), 99), 1);
    assert_eq!(pick_surface_format(Some(&vec![(5u32, true)]), 99), 5);
}

#[test]
fn upload_bounds() {
    assert!(update_fits(0, 16, 4, 64));
    assert!(update_fits(32, 8, 4, 64));
    assert!(!update_fits(33, 8, 4, 64));
    assert!(!update_fits(0, 17, 4, 64));
}

#[test]
fn spirv_words_are_little_endian() {
    let bytes = vec![0x03u8, 0x02, 0x23, 0x07, 0x01, 0x00, 0x00, 0x00];
    assert_eq!(decode_spirv(&bytes), vec![0x0723_0203u32, 1]);
    assert_eq!(encode_spirv(&[0x0723_0203u32, 1]), bytes);
    assert_eq!(decode_spirv(&[]), Vec::<u32>::new());
    assert_eq!(encode_spirv(&[]), Vec::<u8>::new());
}

#[test]
fn spirv_cache_round_trips() {
    let words = vec![0u32, 1, 0xdead_beef, u32::MAX, 0x0001_0000];
    assert_eq!(decode_spirv(&encode_spirv(&words)), words);
    let bytes: Vec<u8> = (0u8..32).map(|b| b.wrapping_mul(37)).collect();
    assert_eq!(encode_spirv(&decode_spirv(&bytes)), bytes);
}

#[test]
fn spirv_cache_path_appends_spv() {
    assert_eq!(spirv_cache_path("resource/shader/ui.vert"), "resource/shader/ui.vert.spv");
    assert_eq!(spirv_cache_path(""), ".spv");
}

#[test]
fn builtin_ui_shader_is_stored_by_name() {
    let mut store: ShaderStore<&str> = ShaderStore::new();
    store.init_builtin_shader("pipeline-a");
    let s = store.get_shader("UI");
    assert_eq!(s.name, "UI");
    assert_eq!(s.pipelines, vec!["pipeline-a"]);
    assert_eq!(s.queue_type, QueueType::Geometry);
    assert!(uuid_bits_ok(s.id));
    let first_id = s.id;
    store.init_builtin_shader("pipeline-b");
    let s = store.get_shader("UI");
    assert_eq!(s.pipelines, vec!["pipeline-b"]);
    assert_ne!(s.id, first_id);
    store.create_shader_pipeline_desc(String::from("UI"));
}

#[test]
fn ui_shader_record() {
    let s = ShaderStore::create_ui_builtin_shader(7u8);
    assert_eq!(s.name, "UI");
    assert_eq!(s.pipelines, vec![7u8]);
    assert_eq!(s.queue_type, QueueType::Geometry);
    assert!(uuid_bits_ok(s.id));
}

#[test]
fn material_keeps_shader_and_texture() {
    let mut m: Material<&str, u32, &str> = Material::new("shader", 5);
    assert_eq!(*m.get_shader(), "shader");
    assert_eq!(*m.get_desc_set(), 5);
    assert_eq!(m.get_main_texture(), None);
    assert!(uuid_bits_ok(m.id));
    let id = m.id;
    m.set_main_texture("tex");
    assert_eq!(m.get_main_texture(), Some(&"tex"));
    assert_eq!(m.id, id);
    let other: Material<&str, u32, &str> = Material::new("shader", 5);
    assert_ne!(other.id, id);
}

#[test]
fn window_events() {
    assert_eq!(
        handle_event(Event::WindowEvent(WindowEvent::Resized)),
        (WinAction::Resize, ControlFlow::Wait),
    );
    assert_eq!(
        handle_event(Event::WindowEvent(WindowEvent::RedrawRequested)),
        (WinAction::Update, ControlFlow::Wait),
    );
    assert_eq!(
        handle_event(Event::WindowEvent(WindowEvent::CloseRequested)),
        (WinAction::Nothing, ControlFlow::Exit),
    );
    assert_eq!(
        handle_event(Event::WindowEvent(WindowEvent::Other)),
        (WinAction::Nothing, ControlFlow::Wait),
    );
    assert_eq!(handle_event(Event::EventsCleared), (WinAction::RequestRedraw, ControlFlow::Wait));
    assert_eq!(handle_event(Event::Other), (WinAction::Nothing, ControlFlow::Wait));
}

#[test]
fn fs_module_attaches_to_a_context() {
    let module = <JSFileSystemModule as ScriptModule<quick_js::Context>>::new();
    let ctx = quick_js::Context::new().unwrap();
    module.attach_script_context(ctx);
}

fn entry(path: &str, name: &str, kind: Option<(bool, bool)>) -> Option<DirEntryInfo> {
    Some(DirEntryInfo { path: String::from(path), name: String::from(name), kind })
}

#[test]
fn read_dir_lists_paths() {
    let entries = vec![entry("d/a", "a", Some((true, false))), None, entry("d/b", "b", None)];
    assert_eq!(
        read_dir_listing(entries, false),
        vec![ListingItem::Path(String::from("d/a")), ListingItem::Path(String::from("d/b"))],
    );
}

#[test]
fn read_dir_details_skip_unreadable_metadata() {
    let entries = vec![
        entry("d/a", "a", Some((true, false))),
        None,
        entry("d/b", "b", None),
        entry("d/c", "c", Some((false, true))),
    ];
    assert_eq!(
        read_dir_listing(entries, true),
        vec![
            ListingItem::Detail {
                is_file: true,
                is_directory: false,
                name: String::from("a"),
                path: String::from("d/a"),
            },
            ListingItem::Detail {
                is_file: false,
                is_directory: true,
                name: String::from("c"),
                path: String::from("d/c"),
            },
        ],
    );
    assert!(read_dir_listing(vec![], true).is_empty());
}
