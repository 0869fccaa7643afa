use core_video_editor::manager::{FiChild, FiInfo, FiManage, FiManager};

fn info(name: &str, n: u8) -> FiInfo<u8, u16, u32> {
    FiInfo {
        name: name.to_string(),
        authors: vec!["NyanRus".to_string()].into_boxed_slice(),
        url: Vec::new().into_boxed_slice(),
        version: "0.0.1beta".to_string(),
        tag: vec!["input".to_string(), "frame".to_string()].into_boxed_slice(),
        fi: FiChild::Input(n),
    }
}

#[test]
fn register_appends_in_order() {
    let mut m: FiManager<u8, u16, u32> = FiManager { vec_info: Vec::new() };
    m.register(info("test module", 1));
    m.register(info("second", 2));
    let names: Vec<&str> = m.vec_info.iter().map(|i| i.name.as_str()).collect();
    assert_eq!(names, vec!["test module", "second"]);
    match m.vec_info[1].fi {
        FiChild::Input(n) => assert_eq!(n, 2),
        _ => panic!("registered an input"),
    }
    assert_eq!(m.vec_info[0].tag.len(), 2);
}
