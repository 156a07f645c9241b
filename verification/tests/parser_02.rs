use libsrt::duration::Duration;
use libsrt::subtitle::SubtitleInit;
use libsrt::subtitle_iterator::SubtitleIterator;
use libsrt::text::Text;

const DATA: &str = "1\n00:03:17,440 --> 00:53:20,375\n칠레 한인회에서는  그동안 코로나-19로 인해서 빠트로나또 한인타운가가 5개월 동안 문을.\n정성기 칠레 한인회장님께서 방역 활동을 하고 계십니다.  방역 활동 구역은 만사노, 산타.\n황성남 한인회이사님께서도 방역 활동에 동참 해 주셨습니다.\n\n2\n00:54:20,476 --> 03:16:22,501\n까날 트레쎄 13번 칠레 방송국에서 빠트로나또 개장 현황을 취재하던 중에 한인회의.\n촬영이 끝난 후 인터뷰 요청이 있어서 정성기 한인회장님께서 인터뷰를 하게 되었습니다. \n금일 9월7일 월요일 밤 9시 뉴스시간에 촬영 및 인터뷰 내용이 방영 된다고 합니다.\n<ref></ref>우리 모두 코로나-19 퇴치 운동에 적극 동참하여 또 다시 자가격리로 되돌.\n\n";

#[test]
fn parse_korean_subtitle() {
    let data = DATA.as_bytes();
    let mut parser = SubtitleIterator::new(data);

    let caption = "칠레 한인회에서는  그동안 코로나-19로 인해서 빠트로나또 한인타운가가 5개월 동안 문을.\n정성기 칠레 한인회장님께서 방역 활동을 하고 계십니다.  방역 활동 구역은 만사노, 산타.\n황성남 한인회이사님께서도 방역 활동에 동참 해 주셨습니다.".as_bytes();
    assert_eq!(&data[32..356], caption);
    assert_eq!(
        parser.next(),
        Some(Ok(SubtitleInit {
            counter: 1,
            start: Duration::from_millis(197440),
            duration: Duration::from_millis(3002935),
            text: Text::new_spanned(caption, 32),
        }
        .init()
        .unwrap()))
    );

    let caption = "까날 트레쎄 13번 칠레 방송국에서 빠트로나또 개장 현황을 취재하던 중에 한인회의.\n촬영이 끝난 후 인터뷰 요청이 있어서 정성기 한인회장님께서 인터뷰를 하게 되었습니다. \n금일 9월7일 월요일 밤 9시 뉴스시간에 촬영 및 인터뷰 내용이 방영 된다고 합니다.\n<ref></ref>우리 모두 코로나-19 퇴치 운동에 적극 동참하여 또 다시 자가격리로 되돌.".as_bytes();
    assert_eq!(&data[390..843], caption);
    assert_eq!(
        parser.next(),
        Some(Ok(SubtitleInit {
            counter: 2,
            start: Duration::from_millis(3260476),
            duration: Duration::from_millis(8522025),
            text: Text::new_spanned(caption, 390),
        }
        .init()
        .unwrap()))
    );

    assert_eq!(parser.next(), None);
}
