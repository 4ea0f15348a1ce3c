use physmem::arch::address::{PhysicalAddress, VirtualAddress};
use physmem::arch::memory::{
    kernel_frames, FrameAttributes, MemoryType, PageAttributes, Permission, PhysicalMemory,
    PhysicalMemoryMap,
};
use physmem::kernel::kernel_info::{
    bss_size, data_size, kernel_memory_size, kernel_size, kernel_size_loaded, kernel_start,
    text_size, KernelImage,
};

fn sample() -> KernelImage {
    KernelImage {
        vmem_start: 0xc000_0000,
        ro_start: 0xc000_8000,
        ro_end: 0xc001_2340,
        data_start: 0xc001_3000,
        data_end: 0xc001_3800,
        bss_start: 0xc001_4000,
        bss_end: 0xc001_c010,
    }
}

#[test]
fn sizes_of_the_sections() {
    let image = sample();
    assert!(image.is_well_formed());
    assert_eq!(kernel_size(&image), 0x1_4010);
    assert_eq!(kernel_size_loaded(&image), 0xb800);
    assert_eq!(text_size(&image), 0xa340);
    assert_eq!(data_size(&image), 0x800);
    assert_eq!(bss_size(&image), 0x8010);
}

#[test]
fn memory_of_the_kernel() {
    let image = sample();
    assert_eq!(kernel_memory_size(&image), 0x1_c010);
    assert_eq!(kernel_frames(&image), 0x1c);
    assert_eq!(kernel_start(&image).as_u32(), 0xc000_0000);
}

#[test]
fn empty_image_has_no_size() {
    let image = KernelImage {
        vmem_start: 0x8000_0000,
        ro_start: 0x8000_0000,
        ro_end: 0x8000_0000,
        data_start: 0x8000_0000,
        data_end: 0x8000_0000,
        bss_start: 0x8000_0000,
        bss_end: 0x8000_0000,
    };
    assert!(image.is_well_formed());
    assert_eq!(kernel_memory_size(&image), 0);
    assert_eq!(kernel_size(&image), 0);
    assert_eq!(kernel_size_loaded(&image), 0);
    assert_eq!(text_size(&image), 0);
    assert_eq!(data_size(&image), 0);
    assert_eq!(bss_size(&image), 0);
    assert_eq!(kernel_frames(&image), 0);
}

#[test]
fn bounds_out_of_order_are_not_an_image() {
    let mut image = sample();
    image.data_end = image.data_start - 1;
    assert!(!image.is_well_formed());

    let mut image = sample();
    image.vmem_start = image.ro_start + 4;
    assert!(!image.is_well_formed());

    let mut image = sample();
    image.bss_end = image.bss_start - 0x10;
    assert!(!image.is_well_formed());
}

#[test]
fn sections_may_lie_in_any_order_after_the_code() {
    let image = KernelImage {
        vmem_start: 0xc000_0000,
        ro_start: 0xc000_0000,
        ro_end: 0xc000_1000,
        data_start: 0xc000_3000,
        data_end: 0xc000_3400,
        bss_start: 0xc000_2000,
        bss_end: 0xc000_4000,
    };
    assert!(image.is_well_formed());
    assert_eq!(text_size(&image), 0x1000);
    assert_eq!(data_size(&image), 0x400);
    assert_eq!(bss_size(&image), 0x2000);
    assert_eq!(kernel_size(&image), 0x4000);
    assert_eq!(kernel_size_loaded(&image), 0x3400);
}

#[test]
fn image_larger_than_dram_is_not_an_image() {
    let mut image = sample();
    image.bss_end = image.vmem_start + 0x1000_0000;
    assert!(image.is_well_formed());
    image.bss_end = image.vmem_start + 0x1000_0001;
    assert!(!image.is_well_formed());
}

#[test]
fn kernel_of_the_image_is_reserved() {
    let image = sample();
    let mut map = PhysicalMemoryMap::new();
    let size: u32 = kernel_memory_size(&image) as u32;
    assert_eq!(map.alloc_kernel_frames(size), Ok(()));
    // 0x1c010 bytes reach into 29 frames.
    assert_eq!(map.get_entry(0), 0x1fff_ffff);
    assert_eq!(map.get_entry(1), 0);
    assert_eq!(map.allocate_frame().unwrap().as_u32(), 0x8001_d000);
}

#[test]
fn addresses_keep_their_number() {
    assert_eq!(PhysicalAddress::new(0x8000_5000).as_u32(), 0x8000_5000);
    assert_eq!(PhysicalAddress::new(0).as_u32(), 0);
    assert_eq!(VirtualAddress::new(0xffff_ffff).as_u32(), 0xffff_ffff);
}

#[test]
fn frame_tags() {
    assert_eq!(format!("{:?}", FrameAttributes::new_inactive()), "FrameAttributes(0)");
    assert_eq!(format!("{:?}", FrameAttributes::new_active()), "FrameAttributes(1)");
    assert_eq!(format!("{:?}", FrameAttributes::new_kernel()), "FrameAttributes(3)");
}

#[test]
fn default_page_attributes() {
    let attributes = PageAttributes::default();
    assert_eq!(
        format!("{:?}", attributes),
        "PageAttributes { mem_type: DRAM, perms: ReadWrite, unpriv: true, accessed: false, dirty: false, executable: false }"
    );
    assert_ne!(MemoryType::DRAM, MemoryType::Device);
    assert_ne!(Permission::ReadOnly, Permission::ReadWrite);
}

#[test]
fn region_of_physical_memory() {
    let _region = PhysicalMemory::new(0x1000_0000);
}
