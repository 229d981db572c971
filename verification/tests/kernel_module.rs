use mwemu_core::elf::Perm;
use mwemu_core::elf64::Elf64Sym;
use mwemu_core::emu::Maps;
use mwemu_core::kernel_module::{
    collect_imports, import_lookup, module_entry, module_name, MODULE_NAME_OFFSET,
};
use mwemu_core::relocatable::{RelObject, RelSection, RelSymbol};

fn undef(name: &str) -> Elf64Sym {
    Elf64Sym {
        st_name: 1,
        st_info: 0x10,
        st_other: 0,
        st_shndx: 0,
        st_value: 0,
        st_size: 0,
        st_dynstr_name: name.to_string(),
    }
}

fn defined(name: &str) -> Elf64Sym {
    Elf64Sym { st_shndx: 1, ..undef(name) }
}

#[test]
fn imports_are_asked_once_and_declined_ones_left_out() {
    let syms = vec![
        undef("printk"),
        defined("init_module"),
        undef(""),
        undef("kmalloc"),
        undef("printk"),
        undef("unknown_fn"),
    ];
    let mut asked: Vec<String> = Vec::new();
    let mut resolve = |name: &str| {
        asked.push(name.to_string());
        match name {
            "printk" => Some(0xffff_0000),
            "kmalloc" => Some(0xffff_0010),
            _ => None,
        }
    };
    let (imports, _) = collect_imports(&syms, &mut resolve);
    assert_eq!(asked, vec!["printk", "kmalloc", "unknown_fn"]);
    assert_eq!(
        imports,
        vec![("printk".to_string(), 0xffff_0000), ("kmalloc".to_string(), 0xffff_0010)]
    );
    assert_eq!(import_lookup(&imports, "kmalloc"), Some(0xffff_0010));
    assert_eq!(import_lookup(&imports, "unknown_fn"), None);
}

#[test]
fn a_declined_import_is_asked_again_when_it_recurs() {
    let syms = vec![undef("late"), undef("late")];
    let mut n = 0;
    let mut resolve = |_: &str| {
        n += 1;
        if n == 2 { Some(7) } else { None }
    };
    let (imports, _) = collect_imports(&syms, &mut resolve);
    assert_eq!(n, 2);
    assert_eq!(imports, vec![("late".to_string(), 7)]);
}

fn sym(name: &str, addr: u64, is_func: bool) -> RelSymbol {
    RelSymbol { name: name.to_string(), addr, size: 0, is_func, is_global: true }
}

fn sec(name: &str, addr: u64, size: u64) -> RelSection {
    RelSection { index: 1, name: name.to_string(), addr, size, perm: Perm::from_flags(true, false, true) }
}

fn object(symbols: Vec<RelSymbol>) -> RelObject {
    RelObject {
        base: 0x1000,
        size: 0x300,
        sections: vec![
            sec(".text", 0x1000, 0x100),
            sec(".init.text", 0x1100, 0x100),
            sec(".gnu.linkonce.this_module", 0x1200, 0x100),
        ],
        symbols,
        unresolved: Vec::new(),
        skipped_relocations: 0,
    }
}

#[test]
fn entry_points_prefer_the_symbol_then_the_section() {
    let obj = object(vec![sym("helper", 0x1010, true), sym("data", 0x1100, false), sym("setup", 0x1120, true)]);
    // No `init_module`: the first function in `.init.text`.
    assert_eq!(module_entry(&obj, "init_module", ".init.text"), Some(0x1120));
    // No `cleanup_module` and no `.exit.text`.
    assert_eq!(module_entry(&obj, "cleanup_module", ".exit.text"), None);
    let obj = object(vec![sym("init_module", 0x1040, true), sym("setup", 0x1120, true)]);
    assert_eq!(module_entry(&obj, "init_module", ".init.text"), Some(0x1040));
}

#[test]
fn the_module_name_comes_from_struct_module_or_the_stem() {
    let obj = object(vec![]);
    let mut maps = Maps::new();
    assert!(maps.create_map("mod.this_module", 0x1200, 0x100));
    assert_eq!(module_name(&obj, &maps, "hello"), "hello");
    assert!(maps.write_string(0x1200 + MODULE_NAME_OFFSET, "hello_drv"));
    assert_eq!(module_name(&obj, &maps, "hello"), "hello_drv");
    let mut bare = object(vec![]);
    bare.sections.pop();
    assert_eq!(module_name(&bare, &maps, "stem"), "stem");
}
