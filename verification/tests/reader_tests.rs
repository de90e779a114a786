use mal::reader::read_str;
use mal::types::MalVal::{Int, List, Str, Sym};

#[test]
fn read_str_simple_sum() {
    match read_str("(+ 1 2)") {
        Ok(List(lst, _)) => {
            assert_eq!(lst.len(), 3);
            match &lst[0] {
                Sym(s) => assert_eq!(s, "+"),
                _ => panic!("Expected Sym(+)"),
            }
            match &lst[1] {
                Int(n) => assert_eq!(*n, 1),
                _ => panic!("Expected Int(1)"),
            }
            match &lst[2] {
                Int(n) => assert_eq!(*n, 2),
                _ => panic!("Expected Int(2)"),
            }
        }
        Ok(_) => panic!("Expected List"),
        Err(_) => panic!("rep() returned an error"),
    }
}

#[test]
fn read_str_simple_chr() {
    match read_str("(str \"aaa\" \"bbb\")") {
        Ok(List(lst, _)) => {
            assert_eq!(lst.len(), 3);
            match &lst[0] {
                Sym(s) => assert_eq!(s, "str"),
                _ => panic!("Expected Sym(+)"),
            }
            match &lst[1] {
                Str(s) => assert_eq!(s, "aaa"),
                _ => panic!("Expected Str(aaa)"),
            }
            match &lst[2] {
                Str(s) => assert_eq!(s, "bbb"),
                _ => panic!("Expected Str(bbb)"),
            }
        }
        Ok(_) => panic!("Expected List"),
        Err(_) => panic!("rep() returned an error"),
    }
}
