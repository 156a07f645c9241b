use libsrt::duration::Duration;
use libsrt::subtitle::SubtitleInit;
use libsrt::subtitle_iterator::SubtitleIterator;
use libsrt::text::Text;

const DATA: &str = "\n1\n00:00:01,300 --> 00:00:08,240\n今天录制了专辑的第三首歌「Fluegel」\n\n2\n00:00:08,240 --> 00:00:12,400\n非常高卡路里的一首歌\n\n3\n00:00:12,400 --> 00:00:17,240\n非常有异域风情的很帅气的一首歌\n\n4\n00:00:17,240 --> 00:00:20,380\n唱歌的时候也很不容易\n\n5\n00:00:20,380 --> 00:00:25,740\n心情上也感觉自己简直瘦了一两千克\n\n6\n00:00:25,740 --> 00:00:29,020\n作为第三首曲子，是至今为止最让我措手不及的一首\n\n7\n00:00:29,020 --> 00:00:32,360\n接下来会有什么曲子我也有点小不安\n\n8\n00:00:32,360 --> 00:00:38,460\n今天给大家展示一下录音的时候我自己用的歌词卡\n\n9\n00:00:39,760 --> 00:00:41,420\n看得到吗\n\n10\n00:00:41,420 --> 00:00:45,200\n写了相当多的内容\n\n11\n00:00:45,200 --> 00:00:49,440\n这里写了\"美丽系萨满第15年\"\n\n12\n00:00:49,440 --> 00:00:53,000\n这里还有\"人类\"，\"简单\"，\"真实体验\"之类的\n\n13\n00:00:53,000 --> 00:00:55,860\n写了很多这样的迷之评论\n\n14\n00:00:55,860 --> 00:01:03,240\n这个\"美丽系萨满第15年\"也请务必听着歌去理解一下\n\n15\n00:01:03,240 --> 00:01:09,040\n今天也是用尽了全力很累了，感觉能睡的很香\n\n16\n00:01:09,040 --> 00:01:10,700\n晚安~\n\n";

#[test]
fn parse_chinese_subtitle() {
    let data = DATA.as_bytes();
    let mut parser = SubtitleIterator::new(data);

    let caption = "今天录制了专辑的第三首歌「Fluegel」".as_bytes();
    assert_eq!(&data[33..82], caption);
    assert_eq!(
        parser.next(),
        Some(Ok(SubtitleInit {
            counter: 1,
            start: Duration::from_millis(1300),
            duration: Duration::from_millis(6940),
            text: Text::new_spanned(caption, 33),
        }
        .init()
        .unwrap()))
    );

    let caption = "非常高卡路里的一首歌".as_bytes();
    assert_eq!(&data[116..146], caption);
    assert_eq!(
        parser.next(),
        Some(Ok(SubtitleInit {
            counter: 2,
            start: Duration::from_millis(8240),
            duration: Duration::from_millis(4160),
            text: Text::new_spanned(caption, 116),
        }
        .init()
        .unwrap()))
    );

    let caption = "非常有异域风情的很帅气的一首歌".as_bytes();
    assert_eq!(&data[180..225], caption);
    assert_eq!(
        parser.next(),
        Some(Ok(SubtitleInit {
            counter: 3,
            start: Duration::from_millis(12400),
            duration: Duration::from_millis(4840),
            text: Text::new_spanned(caption, 180),
        }
        .init()
        .unwrap()))
    );

    let caption = "唱歌的时候也很不容易".as_bytes();
    assert_eq!(&data[259..289], caption);
    assert_eq!(
        parser.next(),
        Some(Ok(SubtitleInit {
            counter: 4,
            start: Duration::from_millis(17240),
            duration: Duration::from_millis(3140),
            text: Text::new_spanned(caption, 259),
        }
        .init()
        .unwrap()))
    );

    let caption = "心情上也感觉自己简直瘦了一两千克".as_bytes();
    assert_eq!(&data[323..371], caption);
    assert_eq!(
        parser.next(),
        Some(Ok(SubtitleInit {
            counter: 5,
            start: Duration::from_millis(20380),
            duration: Duration::from_millis(5360),
            text: Text::new_spanned(caption, 323),
        }
        .init()
        .unwrap()))
    );

    let caption = "作为第三首曲子，是至今为止最让我措手不及的一首".as_bytes();
    assert_eq!(&data[405..474], caption);
    assert_eq!(
        parser.next(),
        Some(Ok(SubtitleInit {
            counter: 6,
            start: Duration::from_millis(25740),
            duration: Duration::from_millis(3280),
            text: Text::new_spanned(caption, 405),
        }
        .init()
        .unwrap()))
    );

    let caption = "接下来会有什么曲子我也有点小不安".as_bytes();
    assert_eq!(&data[508..556], caption);
    assert_eq!(
        parser.next(),
        Some(Ok(SubtitleInit {
            counter: 7,
            start: Duration::from_millis(29020),
            duration: Duration::from_millis(3340),
            text: Text::new_spanned(caption, 508),
        }
        .init()
        .unwrap()))
    );

    let caption = "今天给大家展示一下录音的时候我自己用的歌词卡".as_bytes();
    assert_eq!(&data[590..656], caption);
    assert_eq!(
        parser.next(),
        Some(Ok(SubtitleInit {
            counter: 8,
            start: Duration::from_millis(32360),
            duration: Duration::from_millis(6100),
            text: Text::new_spanned(caption, 590),
        }
        .init()
        .unwrap()))
    );

    let caption = "看得到吗".as_bytes();
    assert_eq!(&data[690..702], caption);
    assert_eq!(
        parser.next(),
        Some(Ok(SubtitleInit {
            counter: 9,
            start: Duration::from_millis(39760),
            duration: Duration::from_millis(1660),
            text: Text::new_spanned(caption, 690),
        }
        .init()
        .unwrap()))
    );

    let caption = "写了相当多的内容".as_bytes();
    assert_eq!(&data[737..761], caption);
    assert_eq!(
        parser.next(),
        Some(Ok(SubtitleInit {
            counter: 10,
            start: Duration::from_millis(41420),
            duration: Duration::from_millis(3780),
            text: Text::new_spanned(caption, 737),
        }
        .init()
        .unwrap()))
    );

    let caption = "这里写了\"美丽系萨满第15年\"".as_bytes();
    assert_eq!(&data[796..833], caption);
    assert_eq!(
        parser.next(),
        Some(Ok(SubtitleInit {
            counter: 11,
            start: Duration::from_millis(45200),
            duration: Duration::from_millis(4240),
            text: Text::new_spanned(caption, 796),
        }
        .init()
        .unwrap()))
    );

    let caption = "这里还有\"人类\"，\"简单\"，\"真实体验\"之类的".as_bytes();
    assert_eq!(&data[868..925], caption);
    assert_eq!(
        parser.next(),
        Some(Ok(SubtitleInit {
            counter: 12,
            start: Duration::from_millis(49440),
            duration: Duration::from_millis(3560),
            text: Text::new_spanned(caption, 868),
        }
        .init()
        .unwrap()))
    );

    let caption = "写了很多这样的迷之评论".as_bytes();
    assert_eq!(&data[960..993], caption);
    assert_eq!(
        parser.next(),
        Some(Ok(SubtitleInit {
            counter: 13,
            start: Duration::from_millis(53000),
            duration: Duration::from_millis(2860),
            text: Text::new_spanned(caption, 960),
        }
        .init()
        .unwrap()))
    );

    let caption = "这个\"美丽系萨满第15年\"也请务必听着歌去理解一下".as_bytes();
    assert_eq!(&data[1028..1095], caption);
    assert_eq!(
        parser.next(),
        Some(Ok(SubtitleInit {
            counter: 14,
            start: Duration::from_millis(55860),
            duration: Duration::from_millis(7380),
            text: Text::new_spanned(caption, 1028),
        }
        .init()
        .unwrap()))
    );

    let caption = "今天也是用尽了全力很累了，感觉能睡的很香".as_bytes();
    assert_eq!(&data[1130..1190], caption);
    assert_eq!(
        parser.next(),
        Some(Ok(SubtitleInit {
            counter: 15,
            start: Duration::from_millis(63240),
            duration: Duration::from_millis(5800),
            text: Text::new_spanned(caption, 1130),
        }
        .init()
        .unwrap()))
    );

    let caption = "晚安~".as_bytes();
    assert_eq!(&data[1225..1232], caption);
    assert_eq!(
        parser.next(),
        Some(Ok(SubtitleInit {
            counter: 16,
            start: Duration::from_millis(69040),
            duration: Duration::from_millis(1660),
            text: Text::new_spanned(caption, 1225),
        }
        .init()
        .unwrap()))
    );

    assert_eq!(parser.next(), None);
}
