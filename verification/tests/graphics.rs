use crile::graphics::buffer::{BufferAllocation, DynamicBufferAllocator};
use crile::graphics::color::hex_to_srgba;
use crile::graphics::render_pipeline::ShaderKind;
use crile::graphics::window::{nonzero_size, WindowConfig};

#[test]
fn hex_colors_split_into_bytes() {
    assert_eq!(hex_to_srgba(0x000000), [0, 0, 0, 255]);
    assert_eq!(hex_to_srgba(0xffffff), [255, 255, 255, 255]);
    assert_eq!(hex_to_srgba(0x112233), [0x11, 0x22, 0x33, 255]);
    assert_eq!(hex_to_srgba(0x11223344), [0x11, 0x22, 0x33, 0x44]);
    assert_eq!(hex_to_srgba(0x1000000), [0x01, 0x00, 0x00, 0x00]);
}

#[test]
fn window_config_default() {
    let config = WindowConfig::default();
    assert_eq!(config.title, "Crile");
    assert_eq!((config.width, config.height), (1280, 720));
}

#[test]
fn shader_kinds_differ() {
    assert_ne!(ShaderKind::DrawSingle, ShaderKind::Instanced);
}

#[test]
fn allocations_are_aligned_and_packed() {
    let mut allocator = DynamicBufferAllocator::new(256, 65536);
    assert_eq!(allocator.space_count(), 0);
    let a = allocator.alloc_write(100);
    assert_eq!(a, BufferAllocation { space: 0, offset: 0, size: 100 });
    assert_eq!(allocator.space_count(), 1);
    assert_eq!(allocator.space_size(0), 16384);
    let b = allocator.alloc_write(300);
    assert_eq!(b, BufferAllocation { space: 0, offset: 256, size: 300 });
    let c = allocator.alloc_write(256);
    assert_eq!(c, BufferAllocation { space: 0, offset: 768, size: 256 });
}

#[test]
fn full_buffer_grows_a_new_one() {
    let mut allocator = DynamicBufferAllocator::new(16, 20000);
    let a = allocator.alloc_write(16000);
    assert_eq!(a.space, 0);
    assert_eq!(allocator.space_size(0), 16384);
    let b = allocator.alloc_write(1000);
    assert_eq!(b, BufferAllocation { space: 1, offset: 0, size: 1000 });
    // Doubling the size would pass the maximum, so the new buffer is capped.
    assert_eq!(allocator.space_size(1), 20000);
    let c = allocator.alloc_write(300);
    assert_eq!(c, BufferAllocation { space: 0, offset: 16000, size: 300 });
}

#[test]
fn free_makes_room_again() {
    let mut allocator = DynamicBufferAllocator::new(64, 65536);
    allocator.alloc_write(8000);
    allocator.alloc_write(8000);
    allocator.free();
    let again = allocator.alloc_write(8000);
    assert_eq!(again, BufferAllocation { space: 0, offset: 0, size: 8000 });
    assert_eq!(allocator.space_count(), 1);
}

#[test]
fn window_sizes_are_at_least_one() {
    assert_eq!(nonzero_size(0, 0), (1, 1));
    assert_eq!(nonzero_size(800, 0), (800, 1));
    assert_eq!(nonzero_size(1280, 720), (1280, 720));
}
