use klang::parse::arena::{align, ArenaMem, Vect};
use klang::parse::ast::{self, Adverb, Args, Chars, AST};
use klang::parse::store::Arena;
use klang::parse::vector::Vector;

#[test]
fn push_then_deref_gives_the_cell_back() {
    let mut a = ArenaMem::new();
    let x = a.push(AST::Int { value: 7 });
    let y = a.push(AST::Bool { value: true });
    assert_eq!(x, 0);
    assert_eq!(y, 1);
    assert_eq!(*a.deref(x), AST::Int { value: 7 });
    assert_eq!(*a.deref(y), AST::Bool { value: true });
    assert_eq!(a.len(), 2);
    assert_eq!(a.curr(), 2);
}

#[test]
fn clear_starts_the_ids_again() {
    let mut a = ArenaMem::with_capacity(4);
    a.push(AST::Int { value: 1 });
    a.push(AST::Int { value: 2 });
    a.clear();
    assert_eq!(a.len(), 0);
    assert_eq!(a.cell(0), None);
    assert_eq!(a.push(AST::Int { value: 3 }), 0);
    assert_eq!(a.cell(0), Some(AST::Int { value: 3 }));
}

#[test]
fn set_curr_gives_up_the_later_cells() {
    let mut a = ArenaMem::new();
    for v in 0..5 {
        a.push(AST::Int { value: v });
    }
    a.set_curr(2);
    assert_eq!(a.curr(), 2);
    assert_eq!(a.cell(1), Some(AST::Int { value: 1 }));
    assert_eq!(a.cell(2), None);
}

#[test]
fn alloc_vec_appends_empty_cells() {
    let mut a = ArenaMem::new();
    a.push(AST::Quit);
    let v = a.alloc_vec(3);
    assert_eq!(v, Vector { first: 1, len: 3 });
    assert_eq!(a.len(), 4);
    assert_eq!(*v.get(2, &a), AST::Nil);
    let none = a.alloc_vec(0);
    assert_eq!(none, Vector { first: 0, len: 0 });
    assert_eq!(a.len(), 4);
}

#[test]
fn vector_set_get_and_ids() {
    let mut a = ArenaMem::new();
    let v = a.alloc_vec(3);
    v.set(1, &mut a, AST::Int { value: 9 });
    assert_eq!(*v.get(1, &a), AST::Int { value: 9 });
    assert_eq!(*a.deref_as_offset(v.first, 1), AST::Int { value: 9 });
    assert_eq!(v.to_id(2), 2);
    assert_eq!(v.as_slice(&a), vec![AST::Nil, AST::Int { value: 9 }, AST::Nil]);
    assert!(v.fits(&a));
    assert!(!Vector { first: 2, len: 2 }.fits(&a));
    let mut ids = v.id_iter();
    assert_eq!(ids.next(), Some(0));
    assert_eq!(ids.next(), Some(1));
    assert_eq!(ids.next(), Some(2));
    assert_eq!(ids.next(), None);
    let mut w = v;
    w.set_len(1);
    assert_eq!(w.len(), 1);
    assert_eq!(w.first, 0);
}

#[test]
fn vector_from_iter_and_cursor() {
    let mut a = ArenaMem::new();
    let v = a.alloc_vec(3);
    v.from_iter(&vec![AST::Int { value: 1 }, AST::Int { value: 2 }], &mut a);
    let mut it = v.iter(&a);
    assert_eq!(it.next(), Some(&AST::Int { value: 1 }));
    assert_eq!(it.next(), Some(&AST::Int { value: 2 }));
    assert_eq!(it.next(), Some(&AST::Nil));
    assert_eq!(it.next(), None);
}

#[test]
fn align_rounds_up() {
    assert_eq!(align(0, 8), 0);
    assert_eq!(align(1, 8), 8);
    assert_eq!(align(8, 8), 8);
    assert_eq!(align(9, 8), 16);
    assert_eq!(align(10, 3), 12);
}

#[test]
fn interning_gives_a_name_one_id() {
    let mut arena = Arena::new();
    assert_eq!(arena.name_id(b"x"), 0);
    assert!(!arena.has_name(b"x"));
    assert_eq!(arena.intern_name_id(b"x"), 0);
    assert_eq!(arena.intern_name_id(b"y"), 1);
    assert_eq!(arena.intern_name_id(b"x"), 0);
    assert_eq!(arena.intern_name(b"y"), AST::Name { value: 1 });
    assert_eq!(arena.intern_name(b"zz"), AST::Name { value: 2 });
    assert!(arena.has_name(b"x"));
    assert_eq!(arena.name_id(b"y"), 1);
    assert_eq!(arena.name_id(b"new"), 3);
    assert_eq!(arena.id_name(1), b"y".to_vec());
    assert_eq!(arena.id_name(9), Vec::<u8>::new());
}

#[test]
fn symbols_and_names_have_their_own_tables() {
    let mut arena = Arena::new();
    assert_eq!(arena.intern_name(b"a"), AST::Name { value: 0 });
    assert_eq!(arena.intern_symbol(b"b"), AST::Symbol { value: 0 });
    assert_eq!(arena.intern_symbol(b""), AST::Symbol { value: 1 });
    assert_eq!(arena.intern_float(b"1.5"), AST::Float { value: 0 });
    assert_eq!(arena.id_symbol(0), b"b".to_vec());
    assert_eq!(arena.id_symbol(1), Vec::<u8>::new());
    assert_eq!(arena.id_float(0), b"1.5".to_vec());
    assert_eq!(arena.id_name(0), b"a".to_vec());
}

#[test]
fn natives_are_found_by_name_and_id() {
    let mut arena = Arena::new();
    arena.intern_name(b"plain");
    arena.add_native(b"type", 0);
    arena.add_native(b"debug", 3);
    assert_eq!(arena.native_id(b"type"), Some(1));
    assert_eq!(arena.native_id(b"debug"), Some(2));
    assert_eq!(arena.native_id(b"plain"), None);
    assert_eq!(arena.native_id(b"nothing"), None);
    assert_eq!(arena.native_id_id(2), Some(3));
    assert_eq!(arena.native_id_id(0), None);
}

#[test]
fn args_hold_up_to_eight_names() {
    let mut a = Args::new();
    assert_eq!(a.len(), 0);
    for k in 0..8u16 {
        assert!(a.can_push());
        a.push(k + 10);
    }
    assert!(!a.can_push());
    assert_eq!(a.len(), 8);
    assert_eq!(a.iter(), vec![10, 11, 12, 13, 14, 15, 16, 17]);
}

#[test]
fn chars_hold_up_to_64_bytes() {
    let c = Chars::new(b"hello").unwrap();
    assert_eq!(c.len(), 5);
    assert_eq!(c.bytes(), b"hello".to_vec());
    assert_eq!(c.to_string(), "hello");
    assert!(Chars::new(&[b'a'; 64]).is_some());
    assert!(Chars::new(&[b'a'; 65]).is_none());
    assert_eq!(Chars::new(b"").unwrap().to_string(), "");
    assert_eq!(Chars::new(&[0xff, 0xfe]).unwrap().to_string(), "");
    assert_eq!(Chars::new("né".as_bytes()).unwrap().to_string(), "né");
}

#[test]
fn adverbs_are_read_and_written() {
    assert_eq!(Adverb::from_str(b"'"), Some(Adverb::Each));
    assert_eq!(Adverb::from_str(b"/"), Some(Adverb::OverJoin));
    assert_eq!(Adverb::from_str(b"\\"), Some(Adverb::ScanSplit));
    assert_eq!(Adverb::from_str(b"':"), Some(Adverb::EachPrior));
    assert_eq!(Adverb::from_str(b"/:"), Some(Adverb::Eachright));
    assert_eq!(Adverb::from_str(b"\\:"), Some(Adverb::Eachleft));
    assert_eq!(Adverb::from_str(b"//"), None);
    assert_eq!(Adverb::from_str(b""), None);
    assert_eq!(Adverb::from_str(b":"), None);
    assert_eq!(Adverb::Eachleft.to_text(), b"\\:".to_vec());
    assert_eq!(Adverb::Each.to_text(), b"'".to_vec());
}

#[test]
fn type_tags_and_atoms() {
    assert_eq!(AST::Int { value: 1 }.type_id(), -7);
    assert_eq!(AST::Float { value: 0 }.type_id(), -8);
    assert_eq!(AST::Symbol { value: 0 }.type_id(), -9);
    assert_eq!(AST::Nil.type_id(), 127);
    assert!(AST::Int { value: 1 }.is_atom());
    assert!(!AST::Bool { value: true }.is_atom());
    assert!(AST::Int { value: 1 }.type_eq(&AST::Symbol { value: 2 }));
    assert!(!AST::Int { value: 1 }.type_eq(&AST::Nil));
    assert!(AST::Nil.is_nil());
    assert!(!AST::Quit.is_nil());
}

#[test]
fn constructors_lay_children_out_in_new_cells() {
    let mut a = ArenaMem::new();
    let one = AST::Int { value: 1 };
    let two = AST::Int { value: 2 };
    let v = ast::verb(&mut a, b'+', vec![one, two]);
    assert_eq!(v, AST::Verb { kind: b'+', args: Vector { first: 0, len: 2 } });
    let l = ast::list(true, &mut a, vec![one]);
    assert_eq!(l, AST::List { curry: true, values: Vector { first: 2, len: 1 } });
    let s = ast::sequence(&mut a, vec![one, two]);
    assert_eq!(s, AST::Sequence { values: Vector { first: 3, len: 2 } });
    let d = ast::dict(&mut a, vec![AST::Name { value: 0 }], vec![two]);
    assert_eq!(
        d,
        AST::Dict { keys: Vector { first: 5, len: 1 }, values: Vector { first: 6, len: 1 } }
    );
    let id = ast::atom(&mut a, AST::Quit);
    assert_eq!(id, 7);
    let adv = ast::adverb(&mut a, b"/", AST::Nil, v, l);
    assert_eq!(adv, AST::Adverb { kind: Adverb::OverJoin, left: 8, verb: 9, right: 10 });
    assert_eq!(*a.deref(9), v);
    let empty = ast::vector(&mut a, vec![]);
    assert_eq!(empty, Vector { first: 0, len: 0 });
    let c = ast::concat(&mut a, &Vector { first: 0, len: 2 }, &Vector { first: 3, len: 2 });
    assert_eq!(c, AST::List { curry: true, values: Vector { first: 11, len: 4 } });
    assert_eq!(Vector { first: 11, len: 4 }.as_slice(&a), vec![one, two, one, two]);
}

#[test]
fn unified_and_flat_lists() {
    let mut a = ArenaMem::new();
    let ints = ast::vector(&mut a, vec![AST::Int { value: 1 }, AST::Symbol { value: 0 }]);
    let mixed = ast::vector(&mut a, vec![AST::Int { value: 1 }, AST::Nil]);
    let single = ast::vector(&mut a, vec![AST::Nil]);
    let empty = ast::vector(&mut a, vec![]);
    assert!(ast::is_unified(&a, &ints));
    assert!(ast::is_flat(&a, &ints));
    assert!(!ast::is_unified(&a, &mixed));
    assert!(!ast::is_flat(&a, &mixed));
    assert!(ast::is_unified(&a, &single));
    assert!(!ast::is_flat(&a, &single));
    assert!(!ast::is_unified(&a, &empty));
    assert!(ast::is_flat(&a, &empty));
}

#[test]
fn names_are_found_in_reading_order() {
    let mut a = ArenaMem::new();
    let inner = ast::verb(&mut a, b'-', vec![AST::Name { value: 3 }, AST::Int { value: 1 }]);
    let outer = ast::verb(&mut a, b'*', vec![AST::Name { value: 5 }, inner]);
    let mut names = Vec::new();
    assert_eq!(outer.find_names(&a, &mut names), 2);
    assert_eq!(names, vec![5, 3]);
    let seq = ast::sequence(&mut a, vec![AST::Name { value: 1 }]);
    assert_eq!(seq.find_names(&a, &mut names), 0);
    assert_eq!(AST::Name { value: 8 }.find_names(&a, &mut names), 1);
    assert_eq!(names, vec![5, 3, 8]);
}

#[test]
fn cells_are_written_through_references() {
    let mut a = ArenaMem::new();
    let v: Vect = a.alloc_vec(4);
    *a.deref_mut(0) = AST::Int { value: 1 };
    *a.deref_as_mut(1) = AST::Int { value: 2 };
    *a.deref_as_offset_mut(1, 1) = AST::Int { value: 3 };
    assert_eq!(*a.deref_as(1), AST::Int { value: 2 });
    {
        let cells = Vector { first: 2, len: 2 }.as_slice_mut(&mut a);
        assert_eq!(cells.len(), 2);
        assert_eq!(cells[0], AST::Int { value: 3 });
        cells[1] = AST::Int { value: 4 };
    }
    assert_eq!(
        v.as_slice(&a),
        vec![
            AST::Int { value: 1 },
            AST::Int { value: 2 },
            AST::Int { value: 3 },
            AST::Int { value: 4 }
        ]
    );
}
