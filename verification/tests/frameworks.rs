//! Frameworks and reference counting.
use touchhle::environment::Environment;
use touchhle::frameworks::ca_display_link::{
    DisplayLink, FirstLayout, LayoutStep, LayoutWalk, LinkMessage,
};
use touchhle::frameworks::jc3_audio::{
    install_music_hook, is_stereo, Music, MusicRequest, PLAY_MUSIC_ADDR,
};
use touchhle::frameworks::ui_stubs::{StubClass, StubReply};
use touchhle::mem::Mem;
use touchhle::objc::arc::{
    nil, objc_autorelease, objc_autoreleaseReturnValue, objc_copyWeak, objc_destroyWeak,
    objc_enumerationMutation, objc_initWeak, objc_loadWeak, objc_loadWeakRetained, objc_release,
    objc_retain, objc_retainAutorelease, objc_retainAutoreleaseReturnValue,
    objc_retainAutoreleasedReturnValue, objc_retainBlock, objc_storeStrong, objc_storeWeak,
    Messages, Send,
};

const AT: u32 = 0x1100;
const COPY: u32 = 0x1104;

fn environment() -> Environment {
    Environment::new(Mem::new(0x10_2000, 0x1000, 0x10_2000), Vec::new())
}

#[test]
fn messages_of_reference_counting() {
    let send = |messages| Send { object: 5, messages };
    assert_eq!(objc_retain(5), send(Messages::Retain));
    assert_eq!(objc_release(5), send(Messages::Release));
    assert_eq!(objc_autorelease(5), send(Messages::Autorelease));
    assert_eq!(objc_retainAutorelease(5), send(Messages::RetainThenAutorelease));
    assert_eq!(objc_autoreleaseReturnValue(5), send(Messages::Autorelease));
    assert_eq!(objc_retainAutoreleaseReturnValue(5), send(Messages::RetainThenAutorelease));
    assert_eq!(objc_retainAutoreleasedReturnValue(5), send(Messages::Retain));
    assert_eq!(objc_retainBlock(5), send(Messages::Retain));
}

#[test]
fn strong_stores() {
    let mut env = environment();
    env.mem.write_u32(AT, 0x50);
    // The same object is left alone.
    assert!(objc_storeStrong(&env, AT, 0x50).is_none());
    let (send, store) = objc_storeStrong(&env, AT, 0x60).unwrap();
    assert_eq!(send, Send { object: 0x60, messages: Messages::Retain });
    assert_eq!(env.mem.read_u32(AT), 0x50);
    let send = store.retained(&mut env, 0x60);
    assert_eq!(send, Send { object: 0x50, messages: Messages::Release });
    assert_eq!(env.mem.read_u32(AT), 0x60);
}

#[test]
fn weak_references() {
    let mut env = environment();
    assert_eq!(objc_initWeak(&mut env, AT, 0x50), 0x50);
    assert_eq!(objc_loadWeak(&env, AT), Send { object: 0x50, messages: Messages::RetainThenAutorelease });
    assert_eq!(objc_storeWeak(&mut env, AT, 0x60), 0x60);
    assert_eq!(objc_loadWeakRetained(&env, AT), Send { object: 0x60, messages: Messages::Retain });
    objc_copyWeak(&mut env, COPY, AT);
    objc_destroyWeak(&mut env, AT);
    assert_eq!(objc_loadWeak(&env, AT).object, nil);
    assert_eq!(objc_loadWeak(&env, COPY).object, 0x60);
    objc_enumerationMutation(&mut env, 0x60);
}

#[test]
fn the_music_hook_is_a_veneer() {
    let mut env = environment();
    env.mem.write_bytes(PLAY_MUSIC_ADDR - 1, &vec![0xee; 10]);
    assert_eq!(install_music_hook(&mut env, 0x1234_5678), (0x10_1aac, 8));
    assert_eq!(
        env.mem.bytes_at(0x10_1aac - 1, 10),
        vec![0xee, 0x00, 0x4b, 0x18, 0x47, 0x78, 0x56, 0x34, 0x12, 0xee]
    );
}

#[test]
fn music_requests() {
    let mut env = environment();
    let mut music = Music::default();
    assert_eq!(music, Music { source: 0, buffer: 0, track: -1 });
    env.regs[1] = 0;
    match music.request(&env) {
        MusicRequest::Play(path) => assert_eq!(path, b"Content/Audio/Music/song1.mp3".to_vec()),
        _ => panic!(),
    }
    assert_eq!(music.stop_current(), (None, None));
    music.started(3, 4, 0);
    assert!(matches!(music.request(&env), MusicRequest::Keep));
    env.regs[1] = 6;
    match music.request(&env) {
        MusicRequest::Play(path) => assert_eq!(path, b"Content/Audio/Music/song7.mp3".to_vec()),
        _ => panic!(),
    }
    assert_eq!(music.stop_current(), (Some(3), Some(4)));
    assert_eq!(music, Music { source: 0, buffer: 0, track: 0 });
    env.regs[1] = 7;
    assert!(matches!(music.request(&env), MusicRequest::Stop));
    env.regs[1] = u32::MAX;
    assert!(matches!(music.request(&env), MusicRequest::Stop));
    music.started(5, 0, 2);
    assert_eq!(music.stop(), (Some(5), None));
    assert_eq!(music.track, -1);
    assert!(is_stereo(2));
    assert!(!is_stereo(1));
}

#[test]
fn display_links() {
    let mut link = DisplayLink::default();
    assert!(!link.isPaused());
    link.set_target(0x50, 0x60, 0x70);
    assert_eq!(link.timer_did_fire(0x70), Some(LinkMessage { target: 0x50, selector: 0x60 }));
    link.setPaused(true);
    assert!(link.isPaused());
    assert_eq!(link.timer_did_fire(0x70), None);
    assert_eq!(link.setFrameInterval(2), (0x70, 2));
}

#[test]
fn the_first_layout() {
    let mut first = FirstLayout { done: false };
    assert!(first.take());
    assert!(!first.take());
    let mut walk = LayoutWalk::new(3);
    let inner = [2, 0, 1];
    let mut seen = Vec::new();
    loop {
        match walk.next_step() {
            LayoutStep::Subview(i) => {
                seen.push((i, None));
                walk.enter(inner[i as usize]);
            }
            LayoutStep::Inner(j) => seen.push((walk.outer, Some(j))),
            LayoutStep::Done => break,
        }
    }
    assert_eq!(
        seen,
        vec![(0, None), (0, Some(0)), (0, Some(1)), (1, None), (2, None), (2, Some(0))]
    );
    assert_eq!(LayoutWalk::new(0).next_step(), LayoutStep::Done);
}

#[test]
fn stubbed_classes() {
    assert_eq!(StubClass::ADBannerView.superclass(), "UIView");
    assert_eq!(StubClass::ADBannerView.reply(false, "isBannerLoaded"), Some(StubReply::No));
    assert_eq!(StubClass::UITableView.superclass(), "UIScrollView");
    assert_eq!(
        StubClass::UITableView.reply(false, "dequeueReusableCellWithIdentifier:"),
        Some(StubReply::Nil)
    );
    assert_eq!(StubClass::UITableView.reply(false, "drawRect:"), None);
    assert_eq!(StubClass::iSimulate.reply(true, "sharedInstance"), Some(StubReply::Nil));
    assert_eq!(StubClass::iSimulate.reply(false, "sharedInstance"), None);
    assert_eq!(StubClass::iSimulate.reply(false, "run"), Some(StubReply::Nothing));
    assert_eq!(StubClass::UIPageControl.reply(false, "currentPage"), Some(StubReply::Zero));
    assert_eq!(StubClass::UITableViewCell.reply(false, "contentView"), Some(StubReply::This));
    assert_eq!(StubClass::UISearchBar.reply(false, "text"), Some(StubReply::Nil));
    assert_eq!(StubClass::UINavigationBar.reply(false, "setItems:animated:"), Some(StubReply::Nothing));
    assert_eq!(StubClass::UIToolbar.reply(false, "setDelegate:"), None);
    assert_eq!(StubClass::GKAchievementViewController.superclass(), "UIViewController");
    assert_eq!(
        StubClass::NSInvocationOperation.reply(false, "initWithTarget:selector:object:"),
        Some(StubReply::This)
    );
}
